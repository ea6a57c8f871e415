//! From source text to tokens.
use crate::number::{canonical, write_number};
use crate::text::{chars_of, code, string_of};
use crate::tokens::{keyword, keyword_views, operator, operator_views, Position, Span, Spanned, Tok, Token};
use vstd::prelude::*;
use vstd::string::StringExecFns;

verus! {

// ── Characters ───────────────────────────────────────────────────────────

/// What `char::is_alphabetic` says of a character.
pub uninterp spec fn alphabetic(c: char) -> bool;

/// `char::is_alphabetic`: whether a character has the Unicode property
/// Alphabetic. The property itself is not stated.
pub assume_specification[ char::is_alphabetic ](c: char) -> (r: bool)
    ensures
        r == alphabetic(c),
;

/// What `char::is_numeric` says of a character.
pub uninterp spec fn numeric(c: char) -> bool;

/// `char::is_numeric`: whether a character is in one of the Unicode categories
/// for numbers. Which ones are is not stated.
pub assume_specification[ char::is_numeric ](c: char) -> (r: bool)
    ensures
        r == numeric(c),
;

/// What `char::is_whitespace` says of a character.
pub uninterp spec fn whitespace(c: char) -> bool;

/// `char::is_whitespace`: whether a character has the Unicode property
/// White_Space. The property itself is not stated.
pub assume_specification[ char::is_whitespace ](c: char) -> (r: bool)
    ensures
        r == whitespace(c),
;

/// Whether a number is the code of a character.
pub open spec fn is_scalar(i: u32) -> bool {
    i < 0xD800 || 0xDFFF < i <= 0x10FFFF
}

/// `char::from_u32`: the character of a code, where there is one. The codes
/// from D800 to DFFF and those above 10FFFF have none.
pub assume_specification[ char::from_u32 ](i: u32) -> (r: Option<char>)
    ensures
        is_scalar(i) ==> r == Some(i as char),
        !is_scalar(i) ==> r is None,
;

/// Whether a character is a space. For ASCII these are the space and the codes
/// from tab to carriage return.
pub open spec fn space(c: char) -> bool {
    c == ' ' || '\t' <= c <= '\r' || (c > '\u{7f}' && whitespace(c))
}

pub fn is_space(c: char) -> (r: bool)
    ensures
        r == space(c),
{
    c == ' ' || ('\t' <= c && c <= '\r') || (c > '\u{7f}' && c.is_whitespace())
}

pub open spec fn ascii_digit(c: char) -> bool {
    '0' <= c <= '9'
}

fn is_ascii_digit(c: char) -> (r: bool)
    ensures
        r == ascii_digit(c),
{
    '0' <= c && c <= '9'
}

/// Whether a character continues a number: for ASCII, whether it is a digit.
pub open spec fn digit(c: char) -> bool {
    ascii_digit(c) || (c > '\u{7f}' && numeric(c))
}

fn is_digit(c: char) -> (r: bool)
    ensures
        r == digit(c),
{
    is_ascii_digit(c) || (c > '\u{7f}' && c.is_numeric())
}

/// Whether a character is a letter, or an underscore.
pub open spec fn letter(c: char) -> bool {
    name_start(c) || (c > '\u{7f}' && alphabetic(c))
}

fn is_letter(c: char) -> (r: bool)
    ensures
        r == letter(c),
{
    is_name_start(c) || (c > '\u{7f}' && c.is_alphabetic())
}

/// Whether a character continues a name.
pub open spec fn name_char(c: char) -> bool {
    letter(c) || digit(c)
}

fn is_name_char(c: char) -> (r: bool)
    ensures
        r == name_char(c),
{
    is_letter(c) || is_digit(c)
}

/// Whether a character starts a name.
pub open spec fn name_start(c: char) -> bool {
    'a' <= c <= 'z' || 'A' <= c <= 'Z' || c == '_'
}

fn is_name_start(c: char) -> (r: bool)
    ensures
        r == name_start(c),
{
    ('a' <= c && c <= 'z') || ('A' <= c && c <= 'Z') || c == '_'
}

/// The value of a hexadecimal digit.
pub open spec fn hex_value(c: char) -> Option<u32> {
    if '0' <= c <= '9' {
        Some((c as int - '0' as int) as u32)
    } else if 'a' <= c <= 'f' {
        Some((c as int - 'a' as int + 10) as u32)
    } else if 'A' <= c <= 'F' {
        Some((c as int - 'A' as int + 10) as u32)
    } else {
        None
    }
}

fn hex_of(c: char) -> (r: Option<u32>)
    ensures
        r == hex_value(c),
{
    let v: u32 = code(c);
    if '0' <= c && c <= '9' {
        Some(v - 48)
    } else if 'a' <= c && c <= 'f' {
        Some(v - 87)
    } else if 'A' <= c && c <= 'F' {
        Some(v - 55)
    } else {
        None
    }
}

// ── The state ────────────────────────────────────────────────────────────

/// Why there is no token at a place.
#[derive(Debug, PartialEq, Eq, Clone, Copy, Structural)]
pub enum LexerError {
    UnexpectedCharacter,
    UnterminatedString,
    InvalidNumber,
}

/// What is said to the user of an error.
pub open spec fn lexer_message(e: LexerError) -> Seq<char> {
    match e {
        LexerError::UnexpectedCharacter => "unexpected character"@,
        LexerError::UnterminatedString => "unterminated string literal"@,
        LexerError::InvalidNumber => "invalid number literal"@,
    }
}

impl LexerError {
    /// What is said to the user.
    pub fn message(self) -> (r: String)
        ensures
            r@ == lexer_message(self),
    {
        match self {
            LexerError::UnexpectedCharacter => crate::text::owned("unexpected character"),
            LexerError::UnterminatedString => crate::text::owned("unterminated string literal"),
            LexerError::InvalidNumber => crate::text::owned("invalid number literal"),
        }
    }
}

/// A source and how far it has been read.
#[derive(Debug)]
pub struct Lexer {
    input: Vec<char>,
    pos: usize,
    current_line: u32,
    pub current_col: u32,
}

/// A source and how far it has been read, as a value.
pub ghost struct Lex {
    pub text: Seq<char>,
    pub pos: int,
    pub line: u32,
    pub col: u32,
}

impl View for Lexer {
    type V = Lex;

    closed spec fn view(&self) -> Lex {
        Lex { text: self.input@, pos: self.pos as int, line: self.current_line, col: self.current_col }
    }
}

impl Lex {
    /// Whether the position lies within the text.
    pub open spec fn valid(self) -> bool {
        0 <= self.pos <= self.text.len() <= usize::MAX
    }

    /// The character after `k` others.
    pub open spec fn ahead(self, k: int) -> Option<char> {
        if 0 <= self.pos + k < self.text.len() {
            Some(self.text[self.pos + k])
        } else {
            None
        }
    }

    /// One character further, and one column.
    pub open spec fn bumped(self) -> Lex {
        Lex {
            pos: if self.pos < self.text.len() { self.pos + 1 } else { self.pos },
            col: self.col.wrapping_add(1),
            ..self
        }
    }

    pub open spec fn here(self) -> Position {
        Position { line: self.line, col: self.col }
    }

    /// What is left to read.
    pub open spec fn left(self) -> int {
        self.text.len() - self.pos
    }
}

/// `a` later in the reading of the same text than `b`, or the same.
pub open spec fn onward(b: Lex, a: Lex) -> bool {
    a.text == b.text && a.valid() && b.pos <= a.pos
}

// ── The parts of tokens ──────────────────────────────────────────────────

/// Past spaces. A newline may end a statement, so it is none.
pub open spec fn past_spaces(l: Lex) -> Lex
    decreases l.left(),
{
    match l.ahead(0) {
        Some(c) => if l.pos >= 0 && space(c) && c != '\n' {
            past_spaces(l.bumped())
        } else {
            l
        },
        None => l,
    }
}

/// Past further newlines.
pub open spec fn past_newlines(l: Lex) -> Lex
    decreases l.left(),
{
    if l.pos >= 0 && l.ahead(0) == Some('\n') {
        past_newlines(Lex { pos: l.pos + 1, line: l.line.wrapping_add(1), ..l })
    } else {
        l
    }
}

/// Up to the end of the line. The characters of a comment do not count as
/// columns.
pub open spec fn past_comment(l: Lex) -> Lex
    decreases l.left(),
{
    if l.pos >= 0 && l.ahead(0) is Some && l.ahead(0) != Some('\n') {
        past_comment(Lex { pos: l.pos + 1, ..l })
    } else {
        l
    }
}

/// Past the rest of a name.
pub open spec fn past_name(l: Lex) -> Lex
    decreases l.left(),
{
    match l.ahead(0) {
        Some(c) => if l.pos >= 0 && name_char(c) {
            past_name(l.bumped())
        } else {
            l
        },
        None => l,
    }
}

/// Past the digits and decimal points of a number. A point belongs to it only
/// if a digit follows.
pub open spec fn past_number(l: Lex) -> Lex
    decreases l.left(),
{
    match l.ahead(0) {
        Some(c) => if l.pos >= 0 && (digit(c) || (c == '.' && l.ahead(1) is Some && digit(l.ahead(1)->0))) {
            past_number(l.bumped())
        } else {
            l
        },
        None => l,
    }
}

/// Past ASCII digits.
pub open spec fn past_digits(l: Lex) -> Lex
    decreases l.left(),
{
    match l.ahead(0) {
        Some(c) => if l.pos >= 0 && ascii_digit(c) {
            past_digits(l.bumped())
        } else {
            l
        },
        None => l,
    }
}

/// Whether an exponent follows: `e`, perhaps `-`, and an ASCII digit.
pub open spec fn exponent_follows(l: Lex) -> bool {
    l.ahead(0) == Some('e') && match l.ahead(1) {
        Some(c) => ascii_digit(c) || (c == '-' && l.ahead(2) is Some && ascii_digit(l.ahead(2)->0)),
        None => false,
    }
}

/// Past an exponent, where one follows.
pub open spec fn past_exponent(l: Lex) -> Lex {
    if exponent_follows(l) {
        past_digits(l.bumped().bumped())
    } else {
        l
    }
}

/// Whether every character of a text is an ASCII digit.
pub open spec fn all_digits(s: Seq<char>) -> bool {
    forall|i: int| 0 <= i < s.len() ==> ascii_digit(#[trigger] s[i])
}

/// The number that digits spell.
pub open spec fn digits_value(s: Seq<char>) -> nat
    decreases s.len(),
{
    if s.len() == 0 {
        0
    } else {
        digits_value(s.drop_last()) * 10 + (s.last() as int - '0' as int) as nat
    }
}

/// How many points a text has.
pub open spec fn points(s: Seq<char>) -> nat
    decreases s.len(),
{
    if s.len() == 0 {
        0
    } else {
        points(s.drop_last()) + if s.last() == '.' {
            1nat
        } else {
            0nat
        }
    }
}

/// Whether a text spells a float: ASCII digits with one point at most, an
/// exponent at most.
pub open spec fn spells_float(s: Seq<char>) -> bool {
    &&& forall|i: int|
        0 <= i < s.len() ==> ascii_digit(#[trigger] s[i]) || s[i] == '.' || s[i] == 'e' || s[i] == '-'
    &&& points(s) <= 1
}

/// The token of a number.
pub open spec fn number(s: Seq<char>) -> Result<Tok, LexerError> {
    if all_digits(s) {
        if digits_value(s) <= i64::MAX {
            Ok(Tok::Int(digits_value(s) as i64))
        } else {
            Err(LexerError::InvalidNumber)
        }
    } else if (s.contains('.') || s.contains('e')) && spells_float(s) {
        Ok(Tok::Float(canonical(s)))
    } else {
        Err(LexerError::InvalidNumber)
    }
}

/// How many hexadecimal digits follow, six at most.
pub open spec fn hex_run(l: Lex, n: int) -> int
    decreases 6 - n,
{
    if n < 6 && l.ahead(n) is Some && hex_value(l.ahead(n)->0) is Some {
        hex_run(l, n + 1)
    } else {
        n
    }
}

/// The number that `n` hexadecimal digits spell.
pub open spec fn hex_number(l: Lex, n: int) -> u32
    decreases n,
{
    if n <= 0 {
        0
    } else {
        match hex_value(l.ahead(n - 1)->0) {
            Some(v) => (hex_number(l, n - 1) * 16 + v) as u32,
            None => hex_number(l, n - 1),
        }
    }
}

/// What follows `\u`, where it is a character code in braces: the character,
/// and how many characters spell it.
pub open spec fn unicode(l: Lex) -> Option<(char, int)> {
    let inner = Lex { pos: l.pos + 1, ..l };
    let n = hex_run(inner, 0);
    if l.ahead(0) == Some('{') && n > 0 && inner.ahead(n) == Some('}') && is_scalar(hex_number(inner, n)) {
        Some((hex_number(inner, n) as char, n + 2))
    } else {
        None
    }
}

pub open spec fn bumped_by(l: Lex, n: int) -> Lex
    decreases n,
{
    if n <= 0 {
        l
    } else {
        bumped_by(l.bumped(), n - 1)
    }
}

/// The character that an escape stands for. One that is not known stands for
/// itself.
pub open spec fn escaped(c: char) -> char {
    if c == 'n' {
        '\n'
    } else if c == 't' {
        '\t'
    } else if c == 'r' {
        '\r'
    } else if c == '0' {
        '\0'
    } else {
        c
    }
}

/// The rest of a string literal, after `done`.
pub open spec fn string_rest(l: Lex, done: Seq<char>) -> (Result<Seq<char>, LexerError>, Lex)
    decreases l.left(),
{
    if l.pos < 0 {
        (Err(LexerError::UnterminatedString), l)
    } else {
        match l.ahead(0) {
            None => (Err(LexerError::UnterminatedString), l),
            Some(c) => if c == '"' {
                (Ok(done), l.bumped())
            } else if c == '\\' {
                let l = l.bumped();
                match l.ahead(0) {
                    None => (Err(LexerError::UnterminatedString), l.bumped()),
                    Some(e) => {
                        let l = l.bumped();
                        match unicode(l) {
                            Some((u, n)) => if e == 'u' {
                                let next = bumped_by(l, n);
                                if 0 <= next.left() < l.left() {
                                    string_rest(next, done.push(u))
                                } else {
                                    (Err(LexerError::UnterminatedString), next)
                                }
                            } else {
                                string_rest(l, done.push(escaped(e)))
                            },
                            None => string_rest(l, done.push(escaped(e))),
                        }
                    },
                }
            } else {
                string_rest(l.bumped(), done.push(c))
            },
        }
    }
}

/// The operator that starts with `c`, the longest first, and what is left
/// after it. `l` is after `c`.
pub open spec fn operator_at(l: Lex, c: char) -> (Option<Token>, Lex) {
    match l.ahead(0) {
        Some(next) => if !name_char(next) && !space(next) && operator(seq![c, next]) is Some {
            (operator(seq![c, next]), l.bumped())
        } else {
            (operator(seq![c]), l)
        },
        None => (operator(seq![c]), l),
    }
}

/// A token or an error, each with its place.
pub type LexView = Result<(Tok, Span), (LexerError, Span)>;

pub open spec fn word(t: Option<Token>, otherwise: Tok) -> Tok {
    match t {
        Some(t) => Tok::Word(t),
        None => otherwise,
    }
}

/// The next token. `start` is where it starts, `l` is past its first
/// character `c`.
pub open spec fn token_at(l: Lex, c: char) -> (Result<Tok, LexerError>, Lex) {
    if c == '\n' {
        (Ok(Tok::Word(Token::Newline)), past_newlines(Lex { line: l.line.wrapping_add(1), col: 0, ..l }))
    } else if c == '"' {
        let (r, end) = string_rest(l, Seq::empty());
        match r {
            Ok(s) => (Ok(Tok::Text(s)), end),
            Err(e) => (Err(e), end),
        }
    } else if ascii_digit(c) {
        let end = past_exponent(past_number(l));
        (number(l.text.subrange(l.pos - 1, end.pos)), end)
    } else if name_start(c) {
        let end = past_name(l);
        let name = l.text.subrange(l.pos - 1, end.pos);
        (Ok(word(keyword(name), Tok::Name(name))), end)
    } else {
        let (op, end) = if c == '/' {
            (Some(Token::Slash), l)
        } else {
            operator_at(l, c)
        };
        match op {
            Some(t) => (Ok(Tok::Word(t)), end),
            None => (Err(LexerError::UnexpectedCharacter), end),
        }
    }
}

/// The next token of a source. Spaces and comments are passed over. At the end
/// it is `EOF`.
#[verifier::opaque]
pub open spec fn next(l: Lex) -> (LexView, Lex)
    decreases l.left(),
{
    let s = past_spaces(l);
    let start = s.here();
    if !onward(l, s) {
        (Err((LexerError::UnexpectedCharacter, Span { start, end: start })), l)
    } else {
        let p = s.bumped();
        match s.ahead(0) {
            None => (Ok((Tok::Word(Token::EOF), Span { start, end: p.here() })), p),
            Some(c) => if c == '/' && p.ahead(0) == Some('/') {
                let after = past_comment(Lex { pos: p.pos + 1, ..p });
                if onward(p, after) {
                    next(after)
                } else {
                    (Err((LexerError::UnexpectedCharacter, Span { start, end: start })), l)
                }
            } else {
                let (r, end) = token_at(p, c);
                match r {
                    Ok(t) => (Ok((t, Span { start, end: end.here() })), end),
                    Err(e) => (Err((e, Span { start, end: end.here() })), end),
                }
            },
        }
    }
}

/// Whether a token is the end.
pub open spec fn is_end(r: LexView) -> bool {
    match r {
        Ok((t, _)) => t == Tok::Word(Token::EOF),
        Err(_) => false,
    }
}

// ── Where the parts end ──────────────────────────────────────────────────

proof fn spaces_onward(l: Lex)
    requires
        l.valid(),
    ensures
        onward(l, past_spaces(l)),
    decreases l.left(),
{
    if let Some(c) = l.ahead(0) {
        if space(c) && c != '\n' {
            spaces_onward(l.bumped());
        }
    }
}

proof fn newlines_onward(l: Lex)
    requires
        l.valid(),
    ensures
        onward(l, past_newlines(l)),
    decreases l.left(),
{
    if l.ahead(0) == Some('\n') {
        newlines_onward(Lex { pos: l.pos + 1, line: l.line.wrapping_add(1), ..l });
    }
}

pub(crate) proof fn comment_onward(l: Lex)
    requires
        l.valid(),
    ensures
        onward(l, past_comment(l)),
    decreases l.left(),
{
    if l.ahead(0) is Some && l.ahead(0) != Some('\n') {
        comment_onward(Lex { pos: l.pos + 1, ..l });
    }
}

proof fn name_onward(l: Lex)
    requires
        l.valid(),
    ensures
        onward(l, past_name(l)),
    decreases l.left(),
{
    if let Some(c) = l.ahead(0) {
        if name_char(c) {
            name_onward(l.bumped());
        }
    }
}

proof fn digits_onward(l: Lex)
    requires
        l.valid(),
    ensures
        onward(l, past_digits(l)),
    decreases l.left(),
{
    if let Some(c) = l.ahead(0) {
        if ascii_digit(c) {
            digits_onward(l.bumped());
        }
    }
}

proof fn number_onward(l: Lex)
    requires
        l.valid(),
    ensures
        onward(l, past_exponent(past_number(l))),
        onward(l, past_number(l)),
    decreases l.left(),
{
    if let Some(c) = l.ahead(0) {
        if digit(c) || (c == '.' && l.ahead(1) is Some && digit(l.ahead(1)->0)) {
            number_onward(l.bumped());
        } else if exponent_follows(l) {
            digits_onward(l.bumped().bumped());
        }
    }
}

proof fn bumps_onward(l: Lex, n: int)
    requires
        l.valid(),
    ensures
        onward(l, bumped_by(l, n)),
        0 <= n <= l.left() ==> bumped_by(l, n).pos == l.pos + n,
    decreases n,
{
    if n > 0 {
        bumps_onward(l.bumped(), n - 1);
    }
}

proof fn hex_run_bound(l: Lex, n: int)
    requires
        0 <= n <= 6,
    ensures
        n <= hex_run(l, n) <= 6,
        forall|k: int| n <= k < hex_run(l, n) ==> (#[trigger] l.ahead(k)) is Some && hex_value(l.ahead(k)->0) is Some,
    decreases 6 - n,
{
    if n < 6 && l.ahead(n) is Some && hex_value(l.ahead(n)->0) is Some {
        hex_run_bound(l, n + 1);
    }
}

proof fn string_onward(l: Lex, done: Seq<char>)
    requires
        l.valid(),
    ensures
        onward(l, string_rest(l, done).1),
    decreases l.left(),
{
    if let Some(c) = l.ahead(0) {
        if c == '"' {
        } else if c == '\\' {
            let m = l.bumped();
            if let Some(e) = m.ahead(0) {
                let k = m.bumped();
                match unicode(k) {
                    Some((u, n)) => {
                        if e == 'u' {
                            let next = bumped_by(k, n);
                            bumps_onward(k, n);
                            if 0 <= next.left() < k.left() {
                                string_onward(next, done.push(u));
                            }
                        } else {
                            string_onward(k, done.push(escaped(e)));
                        }
                    },
                    None => {
                        string_onward(k, done.push(escaped(e)));
                    },
                }
            }
        } else {
            string_onward(l.bumped(), done.push(c));
        }
    }
}

proof fn token_onward(l: Lex, c: char)
    requires
        l.valid(),
    ensures
        onward(l, token_at(l, c).1),
        token_at(l, c).0 is Ok ==> token_at(l, c).0->Ok_0 != Tok::Word(Token::EOF),
{
    newlines_onward(Lex { line: l.line.wrapping_add(1), col: 0, ..l });
    string_onward(l, Seq::empty());
    number_onward(l);
    name_onward(l);
    keyword_views(l.text.subrange(l.pos - 1, past_name(l).pos));
    operator_views(seq![c]);
    if let Some(n) = l.ahead(0) {
        operator_views(seq![c, n]);
    }
}

/// Reading a token goes forward: by at least one character, except at the
/// end, where the token is `EOF`.
pub proof fn next_goes_forward(l: Lex)
    requires
        l.valid(),
    ensures
        onward(l, next(l).1),
        l.left() > 0 ==> next(l).1.left() < l.left(),
        l.left() == 0 ==> is_end(next(l).0),
        is_end(next(l).0) ==> next(l).1.left() == 0,
    decreases l.left(),
{
    reveal(next);
    let s = past_spaces(l);
    spaces_onward(l);
    let p = s.bumped();
    if let Some(c) = s.ahead(0) {
        if c == '/' && p.ahead(0) == Some('/') {
            let after = past_comment(Lex { pos: p.pos + 1, ..p });
            comment_onward(Lex { pos: p.pos + 1, ..p });
            next_goes_forward(after);
        } else {
            token_onward(p, c);
        }
    }
}

/// Once the end is reached, every further token is the end, and nothing more is
/// collected.
pub proof fn the_end_stays(l: Lex)
    requires
        l.valid(),
        l.left() == 0,
    ensures
        is_end(next(l).0),
        next(l).1.left() == 0,
        next(l).1.text == l.text,
        collected(l, Seq::empty(), Seq::empty()) == (Seq::<(Tok, Span)>::empty(), Seq::<(LexerError, Span)>::empty()),
{
    next_goes_forward(l);
}

proof fn unicode_fits(l: Lex)
    requires
        l.valid(),
    ensures
        unicode(l) matches Some((c, n)) ==> 0 < n <= l.left() && n <= 8,
{
    hex_run_bound(Lex { pos: l.pos + 1, ..l }, 0);
}

// ── Reading ──────────────────────────────────────────────────────────────

pub open spec fn lex_view(r: Result<Spanned<Token>, Spanned<LexerError>>) -> LexView {
    match r {
        Ok(t) => Ok((t.item@, t.span)),
        Err(e) => Err((e.item, e.span)),
    }
}

fn unescape(c: char) -> (r: char)
    ensures
        r == escaped(c),
{
    if c == 'n' {
        '\n'
    } else if c == 't' {
        '\t'
    } else if c == 'r' {
        '\r'
    } else if c == '0' {
        '\0'
    } else {
        c
    }
}

fn number_of(input: &Vec<char>, from: usize, to: usize) -> (r: Result<Token, LexerError>)
    requires
        from <= to <= input.len(),
    ensures
        match number(input@.subrange(from as int, to as int)) {
            Ok(t) => r is Ok && r->Ok_0@ == t,
            Err(e) => r is Err && r->Err_0 == e,
        },
{
    let ghost all = input@.subrange(from as int, to as int);
    let mut digits = true;
    let mut plain = true;
    let mut marked = false;
    let mut big = false;
    let mut v: u64 = 0;
    let mut dots: usize = 0;
    let mut i: usize = from;
    assert(all.take(0) =~= Seq::<char>::empty());
    while i < to
        invariant
            from <= i <= to <= input.len(),
            all == input@.subrange(from as int, to as int),
            digits == all_digits(all.take(i - from)),
            digits && !big ==> v == digits_value(all.take(i - from)) && v <= i64::MAX,
            digits && big ==> digits_value(all.take(i - from)) > i64::MAX,
            v <= i64::MAX,
            plain == forall|k: int|
                0 <= k < i - from ==> ascii_digit(#[trigger] all[k]) || all[k] == '.' || all[k] == 'e' || all[k] == '-',
            marked == exists|k: int| 0 <= k < i - from && (#[trigger] all[k] == '.' || all[k] == 'e'),
            dots == points(all.take(i - from)),
            dots <= i - from,
        decreases to - i,
    {
        let c = input[i];
        let ghost k = i - from;
        proof {
            assert(all[k] == c);
            assert(all.take(k + 1).drop_last() =~= all.take(k));
            assert(all.take(k + 1).last() == c);
            assert(forall|j: int| 0 <= j < k ==> all.take(k + 1)[j] == all.take(k)[j]);
            assert(all.take(k + 1)[k] == c);
            if digits && ascii_digit(c) {
                assert forall|j: int| 0 <= j < k + 1 implies ascii_digit(#[trigger] all.take(k + 1)[j]) by {
                    if j < k {
                        assert(ascii_digit(all.take(k)[j]));
                    }
                }
            }
            if !digits {
                let j = choose|j: int| 0 <= j < k && !ascii_digit(#[trigger] all.take(k)[j]);
                assert(!ascii_digit(all.take(k + 1)[j]));
            }
        }
        let d = is_ascii_digit(c);
        if d && digits && !big {
            let more: u64 = (code(c) - 48) as u64;
            if v > 922337203685477580 || v * 10 + more > 9223372036854775807 {
                big = true;
            } else {
                v = v * 10 + more;
            }
        }
        if !d {
            digits = false;
            if c == '.' {
                dots = dots + 1;
                marked = true;
            } else if c == 'e' {
                marked = true;
            } else if c != '-' {
                plain = false;
            }
        }
        i = i + 1;
    }
    assert(all.take(all.len() as int) =~= all);
    proof {
        if marked {
            let k = choose|k: int| 0 <= k < i - from && (#[trigger] all[k] == '.' || all[k] == 'e');
            assert(all.contains(all[k]));
        }
        if all.contains('.') {
            let k = choose|k: int| 0 <= k < all.len() && all[k] == '.';
            assert(all[k] == '.');
        }
        if all.contains('e') {
            let k = choose|k: int| 0 <= k < all.len() && all[k] == 'e';
            assert(all[k] == 'e');
        }
    }
    if digits {
        if big {
            Err(LexerError::InvalidNumber)
        } else {
            Ok(Token::Int(v as i64))
        }
    } else if marked && plain && dots <= 1 {
        let literal = string_of(input, from, to);
        Ok(Token::Float(write_number(literal.as_str())))
    } else {
        Err(LexerError::InvalidNumber)
    }
}

/// All tokens before the end, and all errors, after those found already.
pub open spec fn collected(l: Lex, tokens: Seq<(Tok, Span)>, errors: Seq<(LexerError, Span)>) -> (
    Seq<(Tok, Span)>,
    Seq<(LexerError, Span)>,
)
    decreases l.left(),
{
    let (r, after) = next(l);
    if 0 <= after.left() < l.left() {
        match r {
            Ok((t, span)) => if t == Tok::Word(Token::EOF) {
                (tokens, errors)
            } else {
                collected(after, tokens.push((t, span)), errors)
            },
            Err(e) => collected(after, tokens, errors.push(e)),
        }
    } else {
        (tokens, errors)
    }
}

pub open spec fn token_views(ts: Seq<Spanned<Token>>) -> Seq<(Tok, Span)> {
    ts.map_values(|t: Spanned<Token>| (t.item@, t.span))
}

pub open spec fn error_views(es: Seq<Spanned<LexerError>>) -> Seq<(LexerError, Span)> {
    es.map_values(|e: Spanned<LexerError>| (e.item, e.span))
}

impl Lexer {
    /// All tokens before the end, and all errors.
    pub fn collect_errors(&mut self) -> (r: (Vec<Spanned<Token>>, Vec<Spanned<LexerError>>))
        requires
            old(self)@.valid(),
        ensures
            (token_views(r.0@), error_views(r.1@)) == collected(old(self)@, Seq::empty(), Seq::empty()),
            forall|i: int| 0 <= i < r.0@.len() ==> (#[trigger] r.0@[i]).item@ != Tok::Word(Token::EOF),
            final(self)@.valid(),
            final(self)@.text == old(self)@.text,
            final(self)@.left() == 0,
    {
        let mut tokens: Vec<Spanned<Token>> = Vec::new();
        let mut errors: Vec<Spanned<LexerError>> = Vec::new();
        assert(token_views(tokens@) =~= Seq::<(Tok, Span)>::empty());
        assert(error_views(errors@) =~= Seq::<(LexerError, Span)>::empty());
        loop
            invariant
                self@.valid(),
                self@.text == old(self)@.text,
                forall|i: int| 0 <= i < tokens@.len() ==> (#[trigger] tokens@[i]).item@ != Tok::Word(Token::EOF),
                collected(self@, token_views(tokens@), error_views(errors@)) == collected(
                    old(self)@,
                    Seq::empty(),
                    Seq::empty(),
                ),
            decreases self@.left(),
        {
            let ghost before = (self@, tokens@, errors@);
            proof {
                next_goes_forward(self@);
            }
            match self.next_token() {
                Ok(t) => {
                    if t.item.same(&Token::EOF) {
                        return (tokens, errors);
                    }
                    tokens.push(t);
                    assert(token_views(tokens@) =~= token_views(before.1).push((t.item@, t.span)));
                },
                Err(e) => {
                    errors.push(e);
                    assert(error_views(errors@) =~= error_views(before.2).push((e.item, e.span)));
                },
            }
        }
    }

    /// The start of a source.
    pub fn new(input: &str) -> (r: Lexer)
        ensures
            r@ == (Lex { text: input@, pos: 0, line: 0, col: 0 }),
            r@.valid(),
    {
        let chars = chars_of(input);
        let r = Lexer { input: chars, pos: 0, current_line: 0, current_col: 0 };
        assert(r@.text.len() == r.input.len());
        r
    }

    /// The same source, read as far.
    pub fn dup(&self) -> (r: Lexer)
        ensures
            r@ == self@,
    {
        let mut input: Vec<char> = Vec::new();
        let mut i: usize = 0;
        while i < self.input.len()
            invariant
                i <= self.input.len(),
                input@ =~= self.input@.take(i as int),
            decreases self.input.len() - i,
        {
            input.push(self.input[i]);
            i = i + 1;
        }
        assert(input@ =~= self.input@);
        Lexer { input, pos: self.pos, current_line: self.current_line, current_col: self.current_col }
    }

    /// How far the source has been read.
    pub(crate) fn place(&self) -> (r: (usize, u32, u32))
        ensures
            r.0 == self@.pos,
            r.1 == self@.line,
            r.2 == self@.col,
    {
        (self.pos, self.current_line, self.current_col)
    }

    /// Goes back to where the source had been read to.
    pub(crate) fn go_back(&mut self, place: (usize, u32, u32))
        ensures
            final(self)@ == (Lex { pos: place.0 as int, line: place.1, col: place.2, ..old(self)@ }),
    {
        self.pos = place.0;
        self.current_line = place.1;
        self.current_col = place.2;
    }

    fn ahead(&self, k: usize) -> (r: Option<char>)
        requires
            self@.valid(),
        ensures
            r == self@.ahead(k as int),
    {
        if k < self.input.len() - self.pos {
            Some(self.input[self.pos + k])
        } else {
            None
        }
    }

    fn advance(&mut self) -> (r: Option<char>)
        requires
            old(self)@.valid(),
        ensures
            final(self)@ == old(self)@.bumped(),
            final(self)@.valid(),
            r == old(self)@.ahead(0),
    {
        let c = self.ahead(0);
        if self.pos < self.input.len() {
            self.pos = self.pos + 1;
        }
        self.current_col = self.current_col.wrapping_add(1);
        c
    }

    /// The present line and column.
    pub fn current_pos(&self) -> (r: Position)
        ensures
            r == self@.here(),
    {
        Position { line: self.current_line, col: self.current_col }
    }

    fn skip_whitespace(&mut self)
        requires
            old(self)@.valid(),
        ensures
            final(self)@ == past_spaces(old(self)@),
            final(self)@.valid(),
    {
        loop
            invariant
                self@.valid(),
                past_spaces(self@) == past_spaces(old(self)@),
            decreases self@.left(),
        {
            match self.ahead(0) {
                Some(c) => {
                    if is_space(c) && c != '\n' {
                        let _ = self.advance();
                    } else {
                        return;
                    }
                },
                None => {
                    return;
                },
            }
        }
    }

    fn skip_more_newlines(&mut self)
        requires
            old(self)@.valid(),
        ensures
            final(self)@ == past_newlines(old(self)@),
            final(self)@.valid(),
    {
        loop
            invariant
                self@.valid(),
                past_newlines(self@) == past_newlines(old(self)@),
            decreases self@.left(),
        {
            match self.ahead(0) {
                Some('\n') => {
                    self.pos = self.pos + 1;
                    self.current_line = self.current_line.wrapping_add(1);
                },
                _ => {
                    return;
                },
            }
        }
    }

    fn skip_comment(&mut self)
        requires
            old(self)@.valid(),
        ensures
            final(self)@ == past_comment(old(self)@),
            final(self)@.valid(),
    {
        loop
            invariant
                self@.valid(),
                past_comment(self@) == past_comment(old(self)@),
            decreases self@.left(),
        {
            match self.ahead(0) {
                Some(c) => {
                    if c == '\n' {
                        return;
                    }
                    self.pos = self.pos + 1;
                },
                None => {
                    return;
                },
            }
        }
    }

    fn read_name(&mut self) -> (r: Token)
        requires
            old(self)@.valid(),
            old(self)@.pos > 0,
        ensures
            final(self)@ == past_name(old(self)@),
            final(self)@.valid(),
            ({
                let name = old(self)@.text.subrange(old(self)@.pos - 1, past_name(old(self)@).pos);
                r@ == word(keyword(name), Tok::Name(name))
            }),
    {
        let from: usize = self.pos - 1;
        loop
            invariant
                self@.valid(),
                self@.text == old(self)@.text,
                from + 1 == old(self)@.pos,
                from < self@.pos,
                past_name(self@) == past_name(old(self)@),
            ensures
                self@.valid(),
                self@ == past_name(old(self)@),
            decreases self@.left(),
        {
            match self.ahead(0) {
                Some(c) => {
                    if is_name_char(c) {
                        let _ = self.advance();
                    } else {
                        break;
                    }
                },
                None => {
                    break;
                },
            }
        }
        let name = string_of(&self.input, from, self.pos);
        match Token::from_keyword(name.as_str()) {
            Some(t) => {
                proof {
                    keyword_views(name@);
                }
                t
            },
            None => Token::Identifier(name),
        }
    }

    fn read_operator(&mut self, c: char) -> (r: Option<Token>)
        requires
            old(self)@.valid(),
        ensures
            (r, final(self)@) == operator_at(old(self)@, c),
            final(self)@.valid(),
    {
        let mut single = String::new();
        single.push(c);
        assert(single@ =~= seq![c]);
        if let Some(next) = self.ahead(0) {
            if !is_name_char(next) && !is_space(next) {
                let mut two = String::new();
                two.push(c);
                two.push(next);
                assert(two@ =~= seq![c, next]);
                match Token::from_operator(two.as_str()) {
                    Some(t) => {
                        let _ = self.advance();
                        return Some(t);
                    },
                    None => {},
                }
            }
        }
        Token::from_operator(single.as_str())
    }

    fn skip_number(&mut self)
        requires
            old(self)@.valid(),
        ensures
            final(self)@ == past_number(old(self)@),
            final(self)@.valid(),
    {
        loop
            invariant
                self@.valid(),
                past_number(self@) == past_number(old(self)@),
            decreases self@.left(),
        {
            match self.ahead(0) {
                Some(c) => {
                    let more = if is_digit(c) {
                        true
                    } else if c == '.' {
                        match self.ahead(1) {
                            Some(d) => is_digit(d),
                            None => false,
                        }
                    } else {
                        false
                    };
                    if more {
                        let _ = self.advance();
                    } else {
                        return;
                    }
                },
                None => {
                    return;
                },
            }
        }
    }

    fn skip_digits(&mut self)
        requires
            old(self)@.valid(),
        ensures
            final(self)@ == past_digits(old(self)@),
            final(self)@.valid(),
    {
        loop
            invariant
                self@.valid(),
                past_digits(self@) == past_digits(old(self)@),
            decreases self@.left(),
        {
            match self.ahead(0) {
                Some(c) => {
                    if is_ascii_digit(c) {
                        let _ = self.advance();
                    } else {
                        return;
                    }
                },
                None => {
                    return;
                },
            }
        }
    }

    fn skip_exponent(&mut self)
        requires
            old(self)@.valid(),
        ensures
            final(self)@ == past_exponent(old(self)@),
            final(self)@.valid(),
    {
        let has_e = match self.ahead(0) {
            Some(c) => c == 'e',
            None => false,
        };
        let follows = if has_e {
            match self.ahead(1) {
                Some(c) => {
                    if is_ascii_digit(c) {
                        true
                    } else if c == '-' {
                        match self.ahead(2) {
                            Some(d) => is_ascii_digit(d),
                            None => false,
                        }
                    } else {
                        false
                    }
                },
                None => false,
            }
        } else {
            false
        };
        if follows {
            let _ = self.advance();
            let _ = self.advance();
            self.skip_digits();
        }
    }

    fn read_number(&mut self) -> (r: Result<Token, LexerError>)
        requires
            old(self)@.valid(),
            old(self)@.pos > 0,
        ensures
            final(self)@ == past_exponent(past_number(old(self)@)),
            final(self)@.valid(),
            match number(old(self)@.text.subrange(old(self)@.pos - 1, final(self)@.pos)) {
                Ok(t) => r is Ok && r->Ok_0@ == t,
                Err(e) => r is Err && r->Err_0 == e,
            },
    {
        let from: usize = self.pos - 1;
        proof {
            number_onward(self@);
        }
        self.skip_number();
        self.skip_exponent();
        number_of(&self.input, from, self.pos)
    }

    /// How many hexadecimal digits follow after `from` characters, six at
    /// most, and the number that they spell.
    fn read_hex(&self) -> (r: (usize, u32))
        requires
            self@.valid(),
            self@.ahead(0) is Some,
        ensures
            ({
                let inner = Lex { pos: self@.pos + 1, ..self@ };
                &&& r.0 == hex_run(inner, 0)
                &&& r.1 == hex_number(inner, r.0 as int)
                &&& r.0 <= 6
            }),
    {
        let ghost inner = Lex { pos: self@.pos + 1, ..self@ };
        let mut n: usize = 0;
        let mut v: u32 = 0;
        while n < 6
            invariant
                n <= 6,
                self@.valid(),
                self@.ahead(0) is Some,
                inner == (Lex { pos: self@.pos + 1, ..self@ }),
                hex_run(inner, n as int) == hex_run(inner, 0),
                v == hex_number(inner, n as int),
                n == 0 ==> v == 0,
                n == 1 ==> v < 0x10,
                n == 2 ==> v < 0x100,
                n == 3 ==> v < 0x1000,
                n == 4 ==> v < 0x10000,
                n == 5 ==> v < 0x100000,
                n == 6 ==> v < 0x1000000,
            decreases 6 - n,
        {
            match self.ahead(n + 1) {
                Some(c) => match hex_of(c) {
                    Some(d) => {
                        assert(inner.ahead(n as int) == Some(c));
                        v = v * 16 + d;
                        n = n + 1;
                    },
                    None => {
                        assert(inner.ahead(n as int) == Some(c));
                        return (n, v);
                    },
                },
                None => {
                    assert(inner.ahead(n as int) is None);
                    return (n, v);
                },
            }
        }
        (n, v)
    }

    fn read_unicode(&self) -> (r: Option<(char, usize)>)
        requires
            self@.valid(),
        ensures
            match unicode(self@) {
                Some((c, n)) => r == Some((c, n as usize)) && 0 < n <= 8,
                None => r is None,
            },
    {
        match self.ahead(0) {
            Some('{') => {
                let (n, v) = self.read_hex();
                let ghost inner = Lex { pos: self@.pos + 1, ..self@ };
                assert(inner.ahead(n as int) == self@.ahead(n + 1));
                if n > 0 {
                    match self.ahead(n + 1) {
                        Some('}') => match char::from_u32(v) {
                            Some(c) => Some((c, n + 2)),
                            None => None,
                        },
                        _ => None,
                    }
                } else {
                    None
                }
            },
            _ => None,
        }
    }

    fn advance_by(&mut self, n: usize)
        requires
            old(self)@.valid(),
        ensures
            final(self)@ == bumped_by(old(self)@, n as int),
            final(self)@.valid(),
    {
        let mut k: usize = n;
        while k > 0
            invariant
                self@.valid(),
                bumped_by(self@, k as int) == bumped_by(old(self)@, n as int),
            decreases k,
        {
            let _ = self.advance();
            k = k - 1;
        }
    }

    fn read_string(&mut self) -> (r: Result<String, LexerError>)
        requires
            old(self)@.valid(),
        ensures
            final(self)@ == string_rest(old(self)@, Seq::empty()).1,
            final(self)@.valid(),
            match string_rest(old(self)@, Seq::empty()).0 {
                Ok(s) => r is Ok && r->Ok_0@ == s,
                Err(e) => r is Err && r->Err_0 == e,
            },
    {
        let mut s = String::new();
        assert(s@ =~= Seq::<char>::empty());
        loop
            invariant
                self@.valid(),
                string_rest(self@, s@) == string_rest(old(self)@, Seq::empty()),
            decreases self@.left(),
        {
            let ghost before = self@;
            match self.ahead(0) {
                None => {
                    return Err(LexerError::UnterminatedString);
                },
                Some(c) => {
                    let _ = self.advance();
                    if c == '"' {
                        return Ok(s);
                    }
                    if c == '\\' {
                        match self.advance() {
                            None => {
                                return Err(LexerError::UnterminatedString);
                            },
                            Some(e) => {
                                let code = if e == 'u' {
                                    self.read_unicode()
                                } else {
                                    None
                                };
                                match code {
                                    Some((u, n)) => {
                                        proof {
                                            unicode_fits(self@);
                                            bumps_onward(self@, n as int);
                                        }
                                        self.advance_by(n);
                                        s.push(u);
                                    },
                                    None => {
                                        s.push(unescape(e));
                                    },
                                }
                            },
                        }
                    } else {
                        s.push(c);
                    }
                },
            }
        }
    }

    /// The next token. Spaces and comments are passed over. At the end it is
    /// `EOF`.
    pub fn next_token(&mut self) -> (r: Result<Spanned<Token>, Spanned<LexerError>>)
        requires
            old(self)@.valid(),
        ensures
            (lex_view(r), final(self)@) == next(old(self)@),
            final(self)@.valid(),
            final(self)@.text == old(self)@.text,
    {
        proof {
            next_goes_forward(self@);
        }
        loop
            invariant
                self@.valid(),
                next(self@) == next(old(self)@),
                onward(old(self)@, next(old(self)@).1),
            decreases self@.left(),
        {
            proof {
                reveal(next);
                spaces_onward(self@);
            }
            self.skip_whitespace();
            let start = self.current_pos();
            let ghost s = self@;
            let first = self.advance();
            let ghost p = self@;
            match first {
                None => {
                    let end = self.current_pos();
                    return Ok(Spanned::new(Token::EOF, start, end));
                },
                Some(c) => {
                    if c == '/' {
                        if let Some('/') = self.ahead(0) {
                            self.pos = self.pos + 1;
                            proof {
                                comment_onward(self@);
                            }
                            self.skip_comment();
                            continue;
                        }
                    }
                    let token = if c == '\n' {
                        self.current_line = self.current_line.wrapping_add(1);
                        self.current_col = 0;
                        self.skip_more_newlines();
                        Ok(Token::Newline)
                    } else if c == '"' {
                        match self.read_string() {
                            Ok(s) => Ok(Token::String(s)),
                            Err(e) => Err(e),
                        }
                    } else if is_ascii_digit(c) {
                        self.read_number()
                    } else if is_name_start(c) {
                        Ok(self.read_name())
                    } else if c == '/' {
                        Ok(Token::Slash)
                    } else {
                        match self.read_operator(c) {
                            Some(t) => {
                                proof {
                                    operator_views(seq![c]);
                                    if let Some(n) = p.ahead(0) {
                                        operator_views(seq![c, n]);
                                    }
                                }
                                Ok(t)
                            },
                            None => Err(LexerError::UnexpectedCharacter),
                        }
                    };
                    let end = self.current_pos();
                    return match token {
                        Ok(t) => Ok(Spanned::new(t, start, end)),
                        Err(e) => Err(Spanned::new(e, start, end)),
                    };
                },
            }
        }
    }
}

} // verus!
