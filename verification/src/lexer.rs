use vstd::prelude::*;
use vstd::string::*;
use vstd::utf8::*;
use crate::chars::{
    is_ascii_digit, is_ascii_whitespace, is_digit, is_ident_continue, is_ident_start,
    spec_is_ident_start, spec_width, width,
};
use crate::encoding::{
    all_ascii, char_at, lemma_ascii_decode, lemma_boundary_advance, lemma_boundary_after_ascii,
    lemma_boundary_in_prefix,
};
use crate::grammar::{
    digits, ident_tail, lemma_run_end, lemma_run_end_from_inside, lemma_scan_bounds, run_end, scan,
    scan_at, spaces, Fault, Keyword, Lexeme, Scan,
};
use crate::literal::{lookup_keyword, parse_decimal};
use crate::span::Span;

verus! {

/// The kinds of tokens.
#[derive(Debug, Clone, PartialEq, Eq)]
pub enum TokenKind {
    Number(i64),
    Identifier(String),
    KeywordIf,
    /// `<`
    Less,
    /// `<=`
    LessEqual,
    Eof,
}

impl View for TokenKind {
    type V = Lexeme;

    open spec fn view(&self) -> Lexeme {
        match *self {
            TokenKind::Number(value) => Lexeme::Number(value),
            TokenKind::Identifier(text) => Lexeme::Identifier(text@),
            TokenKind::KeywordIf => Lexeme::KeywordIf,
            TokenKind::Less => Lexeme::Less,
            TokenKind::LessEqual => Lexeme::LessEqual,
            TokenKind::Eof => Lexeme::Eof,
        }
    }
}

/// A token and the bytes of the text that it covers.
#[derive(Debug, Clone, PartialEq, Eq)]
pub struct Token {
    pub kind: TokenKind,
    pub span: Span,
}

/// The mode of the scanner.
#[derive(Debug, Clone, Copy, PartialEq, Eq, Structural)]
pub enum State {
    Start,
    Number,
    Ident,
    /// A `<` is next, and a `=` may follow it.
    Lt,
}

/// Why no token could be read, and at which bytes.
#[derive(Debug)]
pub struct LexError {
    pub message: String,
    pub span: Span,
}

/// The way the formatter of `std` writes a character for debugging: in single quotes, with
/// escapes where it uses them.
pub uninterp spec fn char_debug(ch: char) -> Seq<char>;

/// What the message of an error says about a character, given the character as the
/// formatter wrote it.
pub open spec fn unexpected_character_message(quoted: Seq<char>) -> Seq<char> {
    "Unexpected character: "@ + quoted
}

/// What the message of an error says about digits whose value is out of range.
pub open spec fn invalid_integer_message() -> Seq<char> {
    "Invalid integer literal: number too large to fit in target type"@
}

/// The message that reports a fault.
pub open spec fn fault_message(fault: Fault) -> Seq<char> {
    match fault {
        Fault::UnexpectedCharacter(ch) => unexpected_character_message(char_debug(ch)),
        Fault::InvalidIntegerLiteral => invalid_integer_message(),
    }
}

/// Writes a character as `{:?}` does. The contract gives that text a name and claims
/// nothing else of it: the escapes that `<char as Debug>::fmt` chooses are not stated.
#[verifier::external_body]
fn debug_char(ch: char) -> (quoted: String)
    ensures
        quoted@ == char_debug(ch),
{
    format!("{:?}", ch)
}

impl LexError {
    /// The error for a character that opens no token, from the character as the formatter
    /// wrote it and the bytes it stands at.
    pub fn unexpected_character(quoted: &str, span: Span) -> (e: LexError)
        ensures
            e.message@ == unexpected_character_message(quoted@),
            e.span == span,
    {
        let mut message = String::from_str("Unexpected character: ");
        message.append(quoted);
        LexError { message, span }
    }

    /// The error for digits whose value does not fit in 64 signed bits.
    pub fn invalid_integer_literal(span: Span) -> (e: LexError)
        ensures
            e.message@ == invalid_integer_message(),
            e.span == span,
    {
        LexError {
            message: String::from_str(
                "Invalid integer literal: number too large to fit in target type",
            ),
            span,
        }
    }
}

/// A scanner as contracts see it.
pub struct LexerView {
    pub bytes: Seq<u8>,
    pub pos: int,
    pub token_start: int,
    pub state: State,
}

impl LexerView {
    /// The cursor stands at a character boundary of well-formed text. In a mode other than
    /// `Start` a token has been entered at `token_start`, its first byte is of the kind that
    /// the mode reads, and the cursor has not left the token.
    pub open spec fn wf(self) -> bool {
        &&& valid_utf8(self.bytes)
        &&& 0 <= self.pos <= self.bytes.len()
        &&& is_char_boundary(self.bytes, self.pos)
        &&& self.state != State::Start ==> {
            &&& 0 <= self.token_start <= self.pos
            &&& self.token_start < self.bytes.len()
            &&& is_char_boundary(self.bytes, self.token_start)
        }
        &&& match self.state {
            State::Start => true,
            State::Number => forall|i: int|
                self.token_start <= i < self.pos || i == self.token_start ==> is_digit(
                    #[trigger] self.bytes[i],
                ),
            State::Ident => self.pos == self.token_start && spec_is_ident_start(
                self.bytes[self.token_start],
            ),
            State::Lt => self.pos == self.token_start && self.bytes[self.token_start] == 0x3c,
        }
    }

    /// What the next scan yields: in the mode `Start` the token behind the whitespace under
    /// the cursor, in another mode the token that has been entered.
    pub open spec fn upcoming(self) -> Scan {
        if self.state == State::Start {
            scan(self.bytes, self.pos)
        } else {
            scan_at(self.bytes, self.token_start)
        }
    }

    /// The scanner behind the next scan. The cursor stands behind the bytes that the scan
    /// covers. The mode is `Start` again, but behind digits whose value is out of range:
    /// there it stays `Number`, and every further scan reports the same digits.
    pub open spec fn advance(self) -> LexerView {
        let next = self.upcoming();
        LexerView {
            bytes: self.bytes,
            pos: next.end,
            token_start: next.start,
            state: if next.outcome == Err::<Lexeme, Fault>(Fault::InvalidIntegerLiteral) {
                State::Number
            } else {
                State::Start
            },
        }
    }
}

/// A scan leaves the scanner well formed, with the cursor at or behind the place where it
/// stood, and the bytes that the scan covers lie between the two places of the cursor.
pub proof fn lemma_advance_wf(v: LexerView)
    requires
        v.wf(),
    ensures
        v.advance().wf(),
        v.pos <= v.advance().pos,
        v.state == State::Start ==> v.pos <= v.upcoming().start,
        v.upcoming().start <= v.upcoming().end == v.advance().pos,
{
    let from = if v.state == State::Start {
        v.pos
    } else {
        v.token_start
    };
    lemma_run_end(v.bytes, from, spaces());
    lemma_scan_bounds(v.bytes, from);
    let start = run_end(v.bytes, from, spaces());
    assert(v.upcoming() == scan_at(v.bytes, start));
    if start < v.bytes.len() && is_digit(v.bytes[start]) {
        lemma_run_end(v.bytes, start, digits());
        if v.state == State::Number {
            lemma_run_end_from_inside(v.bytes, v.token_start, v.pos, digits());
            lemma_run_end(v.bytes, v.pos, digits());
        }
    }
}

/// Two tokens that successive scans yield do not overlap: the second begins at or behind
/// the byte at which the first ends.
pub proof fn lemma_successive_tokens(v: LexerView)
    requires
        v.wf(),
        v.upcoming().outcome is Ok,
        v.advance().upcoming().outcome is Ok,
    ensures
        v.upcoming().start <= v.upcoming().end <= v.advance().upcoming().start,
{
    lemma_advance_wf(v);
    lemma_advance_wf(v.advance());
}

/// Once the end marker has been yielded, every further scan yields it again, over the same
/// empty span at the end of the text, and the cursor stays where it is.
pub proof fn lemma_eof_is_terminal(v: LexerView)
    requires
        v.wf(),
        v.upcoming().outcome == Ok::<Lexeme, Fault>(Lexeme::Eof),
    ensures
        v.advance().upcoming() == v.upcoming(),
        v.advance().advance() == v.advance(),
        v.upcoming().start == v.upcoming().end == v.bytes.len(),
{
    lemma_scan_bounds(v.bytes, v.pos);
}

/// Once digits whose value is out of range have been reported, every further scan reports
/// the same digits again.
pub proof fn lemma_invalid_integer_repeats(v: LexerView)
    requires
        v.wf(),
        v.upcoming().outcome == Err::<Lexeme, Fault>(Fault::InvalidIntegerLiteral),
    ensures
        v.advance().upcoming() == v.upcoming(),
        v.advance().advance() == v.advance(),
{
    lemma_advance_wf(v);
}

/// A character that opens no token is reported once: the scan behind it begins behind it.
pub proof fn lemma_unexpected_is_consumed(v: LexerView)
    requires
        v.wf(),
        v.upcoming().outcome matches Err(Fault::UnexpectedCharacter(_)),
    ensures
        v.upcoming().start < v.upcoming().end <= v.advance().upcoming().start,
        v.advance().state == State::Start,
{
    lemma_advance_wf(v);
    lemma_advance_wf(v.advance());
}

/// The span of the bytes that a scan covers.
pub open spec fn span_of(s: Scan) -> Span {
    Span { start: s.start as usize, end: s.end as usize }
}

/// A result of the scanner says what a scan yields: the same token over the same bytes,
/// or the error that reports the same fault there.
pub open spec fn agrees(r: Result<Token, LexError>, s: Scan) -> bool {
    match r {
        Ok(token) => s.outcome == Ok::<Lexeme, Fault>(token.kind@) && token.span == span_of(s),
        Err(e) => match s.outcome {
            Ok(_) => false,
            Err(fault) => e.message@ == fault_message(fault) && e.span == span_of(s),
        },
    }
}

/// The classes of bytes of which the scanner reads whole runs.
#[derive(Debug, Clone, Copy, PartialEq, Eq, Structural)]
pub enum Class {
    Space,
    Digit,
    IdentTail,
}

impl Class {
    /// The bytes of the class.
    pub open spec fn members(self) -> spec_fn(u8) -> bool {
        match self {
            Class::Space => spaces(),
            Class::Digit => digits(),
            Class::IdentTail => ident_tail(),
        }
    }

    /// Tells whether a byte is of the class.
    pub fn holds(self, b: u8) -> (r: bool)
        ensures
            r == (self.members())(b),
            r ==> b < 0x80,
    {
        match self {
            Class::Space => is_ascii_whitespace(b),
            Class::Digit => is_ascii_digit(b),
            Class::IdentTail => is_ident_continue(b),
        }
    }
}

/// A scanner over a text: it hands out the tokens of the text one by one.
pub struct Lexer<'a> {
    input: &'a str,
    /// Byte offset of the cursor.
    pos: usize,
    /// Byte offset at which the token that was entered last begins.
    token_start: usize,
    state: State,
}

impl<'a> View for Lexer<'a> {
    type V = LexerView;

    closed spec fn view(&self) -> LexerView {
        LexerView {
            bytes: self.input.spec_bytes(),
            pos: self.pos as int,
            token_start: self.token_start as int,
            state: self.state,
        }
    }
}

impl<'a> Lexer<'a> {
    /// A scanner at the start of a text.
    pub fn new(input: &'a str) -> (lexer: Self)
        ensures
            lexer@.wf(),
            lexer@.bytes == input.spec_bytes(),
            lexer@.pos == 0,
            lexer@.token_start == 0,
            lexer@.state == State::Start,
    {
        proof {
            encode_utf8_valid_utf8(input@);
            is_char_boundary_start_end_of_seq(input.spec_bytes());
        }
        Self { input, pos: 0, token_start: 0, state: State::Start }
    }

    /// Produce the next token.
    ///
    /// Whitespace is passed over, then one token is read: a run of digits, an identifier or
    /// reserved word, `<` or `<=`, or the end marker at the end of the text. A character
    /// that opens none of these is passed over and reported. Digits whose value is out of
    /// range are reported, and reported again by every later call.
    pub fn next_token(&mut self) -> (r: Result<Token, LexError>)
        requires
            old(self)@.wf(),
        ensures
            final(self)@.wf(),
            final(self)@ == old(self)@.advance(),
            agrees(r, old(self)@.upcoming()),
    {
        loop
            invariant
                self@.wf(),
                self@.bytes == old(self)@.bytes,
                self@.upcoming() == old(self)@.upcoming(),
            decreases
                (if self@.state == State::Start {
                    1int
                } else {
                    0int
                }),
        {
            proof {
                lemma_scan_bounds(self@.bytes, self@.pos);
            }
            match self.state {
                State::Start => {
                    self.skip_whitespace();
                    self.token_start = self.pos;
                    let b = match self.peek() {
                        Some(b) => b,
                        None => {
                            return Ok(
                                Token { kind: TokenKind::Eof, span: Span::new(self.pos, self.pos) },
                            );
                        },
                    };
                    if is_ascii_digit(b) {
                        self.state = State::Number;
                    } else if is_ident_start(b) {
                        self.state = State::Ident;
                    } else if b == 0x3c {
                        self.state = State::Lt;
                    } else {
                        return Err(self.lex_unexpected());
                    }
                },
                State::Number => {
                    return self.lex_number();
                },
                State::Ident => {
                    return Ok(self.lex_ident());
                },
                State::Lt => {
                    return Ok(self.lex_less());
                },
            }
        }
    }

    /// Passes over the character under the cursor, which opens no token, and reports it.
    fn lex_unexpected(&mut self) -> (e: LexError)
        requires
            valid_utf8(old(self)@.bytes),
            old(self)@.pos < old(self)@.bytes.len(),
            is_char_boundary(old(self)@.bytes, old(self)@.pos),
        ensures
            final(self)@ == (LexerView {
                pos: old(self)@.pos + spec_width(old(self)@.bytes[old(self)@.pos]),
                ..old(self)@
            }),
            final(self)@.pos <= final(self)@.bytes.len(),
            is_char_boundary(final(self)@.bytes, final(self)@.pos),
            e.message@ == fault_message(
                Fault::UnexpectedCharacter(char_at(old(self)@.bytes, old(self)@.pos)),
            ),
            e.span == (Span { start: old(self)@.pos as usize, end: final(self)@.pos as usize }),
    {
        let start = self.pos;
        let ch = match self.peek_char() {
            Some(ch) => ch,
            None => '\0',
        };
        self.bump_char();
        let quoted = debug_char(ch);
        LexError::unexpected_character(quoted.as_str(), Span::new(start, self.pos))
    }

    /// Reads the digits of a number to their end and takes their value.
    fn lex_number(&mut self) -> (r: Result<Token, LexError>)
        requires
            old(self)@.wf(),
            old(self)@.state == State::Number,
        ensures
            final(self)@.wf(),
            final(self)@ == old(self)@.advance(),
            agrees(r, old(self)@.upcoming()),
    {
        proof {
            lemma_run_end_from_inside(self@.bytes, self@.token_start, self@.pos, digits());
            lemma_run_end(self@.bytes, self@.token_start, digits());
            lemma_run_end(self@.bytes, self@.token_start + 1, digits());
        }
        self.bump_while(Class::Digit);
        let span = Span::new(self.token_start, self.pos);
        match parse_decimal(self.input.as_bytes(), span.start, span.end) {
            Some(value) => {
                self.state = State::Start;
                Ok(Token { kind: TokenKind::Number(value), span })
            },
            None => Err(LexError::invalid_integer_literal(span)),
        }
    }

    /// Reads an identifier to its end and looks it up among the reserved words.
    fn lex_ident(&mut self) -> (token: Token)
        requires
            old(self)@.wf(),
            old(self)@.state == State::Ident,
        ensures
            final(self)@.wf(),
            final(self)@ == old(self)@.advance(),
            agrees(Ok(token), old(self)@.upcoming()),
    {
        proof {
            lemma_run_end(self@.bytes, self@.token_start, ident_tail());
            lemma_run_end(self@.bytes, self@.token_start + 1, ident_tail());
        }
        self.bump_while(Class::IdentTail);
        let span = Span::new(self.token_start, self.pos);
        let kind = match lookup_keyword(self.input.as_bytes(), span.start, span.end) {
            Some(Keyword::If) => TokenKind::KeywordIf,
            None => {
                let text = self.text(span.start, span.end);
                proof {
                    let run = self@.bytes.subrange(span.start as int, span.end as int);
                    assert(all_ascii(run)) by {
                        assert forall|i: int| 0 <= i < run.len() implies #[trigger] run[i]
                            < 0x80 by {
                            assert((ident_tail())(self@.bytes[span.start + i]));
                        }
                    }
                    lemma_ascii_decode(run);
                    encode_utf8_decode_utf8(text@);
                }
                TokenKind::Identifier(text.to_owned())
            },
        };
        self.state = State::Start;
        Token { kind, span }
    }

    /// Reads `<`, and the `=` that follows it directly, if there is one.
    fn lex_less(&mut self) -> (token: Token)
        requires
            old(self)@.wf(),
            old(self)@.state == State::Lt,
        ensures
            final(self)@.wf(),
            final(self)@ == old(self)@.advance(),
            agrees(Ok(token), old(self)@.upcoming()),
    {
        self.bump_char();
        let kind = match self.peek() {
            Some(0x3d) => {
                self.bump_char();
                TokenKind::LessEqual
            },
            _ => TokenKind::Less,
        };
        let span = Span::new(self.token_start, self.pos);
        self.state = State::Start;
        Token { kind, span }
    }

    /// The text between two character boundaries of the input.
    fn text(&self, start: usize, end: usize) -> (r: &'a str)
        requires
            valid_utf8(self@.bytes),
            start <= end <= self@.bytes.len(),
            is_char_boundary(self@.bytes, start as int),
            is_char_boundary(self@.bytes, end as int),
        ensures
            r.spec_bytes() == self@.bytes.subrange(start as int, end as int),
    {
        proof {
            lemma_boundary_in_prefix(self@.bytes, start as int, end as int);
        }
        let (head, _) = self.input.split_at(end);
        let (_, text) = head.split_at(start);
        assert(text.spec_bytes() =~= self@.bytes.subrange(start as int, end as int));
        text
    }

    /// The byte under the cursor, if the cursor is not at the end.
    fn peek(&self) -> (r: Option<u8>)
        requires
            self@.pos <= self@.bytes.len(),
        ensures
            r == if self@.pos < self@.bytes.len() {
                Some(self@.bytes[self@.pos])
            } else {
                None::<u8>
            },
    {
        let bytes = self.input.as_bytes();
        if self.pos < bytes.len() {
            Some(bytes[self.pos])
        } else {
            None
        }
    }

    /// The character under the cursor, if the cursor is not at the end.
    fn peek_char(&self) -> (r: Option<char>)
        requires
            self@.pos <= self@.bytes.len(),
            is_char_boundary(self@.bytes, self@.pos),
        ensures
            r == if self@.pos < self@.bytes.len() {
                Some(char_at(self@.bytes, self@.pos))
            } else {
                None::<char>
            },
    {
        let (_, rest) = self.input.split_at(self.pos);
        proof {
            encode_utf8_valid_utf8(rest@);
            encode_utf8_decode_utf8(rest@);
            assert(rest.spec_bytes() == self@.bytes.subrange(
                self@.pos,
                self@.bytes.len() as int,
            ));
        }
        let mut chars = rest.chars();
        chars.next()
    }

    /// Moves the cursor over the character under it.
    fn bump_char(&mut self)
        requires
            valid_utf8(old(self)@.bytes),
            old(self)@.pos < old(self)@.bytes.len(),
            is_char_boundary(old(self)@.bytes, old(self)@.pos),
        ensures
            final(self)@ == (LexerView {
                pos: old(self)@.pos + spec_width(old(self)@.bytes[old(self)@.pos]),
                ..old(self)@
            }),
            final(self)@.pos <= final(self)@.bytes.len(),
            is_char_boundary(final(self)@.bytes, final(self)@.pos),
    {
        proof {
            lemma_boundary_advance(self@.bytes, self@.pos);
        }
        let bytes = self.input.as_bytes();
        self.pos = self.pos + width(bytes[self.pos]);
    }

    /// Moves the cursor over the whitespace under it.
    fn skip_whitespace(&mut self)
        requires
            valid_utf8(old(self)@.bytes),
            old(self)@.pos <= old(self)@.bytes.len(),
            is_char_boundary(old(self)@.bytes, old(self)@.pos),
        ensures
            final(self)@ == (LexerView {
                pos: run_end(old(self)@.bytes, old(self)@.pos, spaces()),
                ..old(self)@
            }),
            final(self)@.pos <= final(self)@.bytes.len(),
            is_char_boundary(final(self)@.bytes, final(self)@.pos),
    {
        self.bump_while(Class::Space);
    }

    /// Moves the cursor to the end of the run of bytes of one class that it stands in.
    fn bump_while(&mut self, class: Class)
        requires
            valid_utf8(old(self)@.bytes),
            old(self)@.pos <= old(self)@.bytes.len(),
            is_char_boundary(old(self)@.bytes, old(self)@.pos),
        ensures
            final(self)@ == (LexerView {
                pos: run_end(old(self)@.bytes, old(self)@.pos, class.members()),
                ..old(self)@
            }),
            final(self)@.pos <= final(self)@.bytes.len(),
            is_char_boundary(final(self)@.bytes, final(self)@.pos),
    {
        let bytes = self.input.as_bytes();
        while self.pos < bytes.len() && class.holds(bytes[self.pos])
            invariant
                bytes@ == self@.bytes,
                valid_utf8(self@.bytes),
                self@.pos <= self@.bytes.len(),
                is_char_boundary(self@.bytes, self@.pos),
                self@ == (LexerView { pos: self@.pos, ..old(self)@ }),
                run_end(self@.bytes, self@.pos, class.members()) == run_end(
                    old(self)@.bytes,
                    old(self)@.pos,
                    class.members(),
                ),
            decreases self@.bytes.len() - self@.pos,
        {
            proof {
                lemma_boundary_after_ascii(self@.bytes, self@.pos);
            }
            self.pos = self.pos + 1;
        }
    }
}

} // verus!
