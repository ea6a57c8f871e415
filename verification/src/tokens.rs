//! Tokens, and where in the source they stand.
use crate::text::{owned, push_decimal, same_text};
use vstd::prelude::*;
use vstd::string::StringExecFns;

verus! {

/// A token of the language. A float is kept in decimal notation, in the one
/// way that each number is written; no digit of its literal is lost.
#[derive(Debug, PartialEq, Clone)]
pub enum Token {
    Float(String),
    Int(i64),
    String(String),
    Identifier(String),
    True,
    False,
    /// The `none` literal.
    NoneLit,
    Inf,
    Nan,
    Plus,
    Minus,
    Not,
    Star,
    Slash,
    Let,
    Mut,
    Assign,
    EqEq,
    NotEq,
    Lt,
    Gt,
    LtEq,
    GtEq,
    DotDot,
    Or,
    And,
    If,
    Then,
    Else,
    Func,
    Return,
    For,
    In,
    Do,
    Data,
    Annotation,
    Error,
    Trait,
    Provides,
    Is,
    Match,
    Pipe,
    Import,
    As,
    Dot,
    Arrow,
    Colon,
    LeftParen,
    LeftBracket,
    LeftBrace,
    RightParen,
    RightBracket,
    RightBrace,
    Comma,
    Exclamation,
    Question,
    Semicolon,
    Hash,
    Catch,
    Newline,
    EOF,
}

/// A token as a mathematical value.
pub ghost enum Tok {
    Float(Seq<char>),
    Int(i64),
    Text(Seq<char>),
    Name(Seq<char>),
    /// Any token that is told apart by its variant alone.
    Word(Token),
}

impl View for Token {
    type V = Tok;

    open spec fn view(&self) -> Tok {
        match *self {
            Token::Float(s) => Tok::Float(s@),
            Token::Int(n) => Tok::Int(n),
            Token::String(s) => Tok::Text(s@),
            Token::Identifier(s) => Tok::Name(s@),
            t => Tok::Word(t),
        }
    }
}

/// A number for each variant.
pub open spec fn kind_of(t: Token) -> u8 {
    match t {
        Token::Float(_) => 0,
        Token::Int(_) => 1,
        Token::String(_) => 2,
        Token::Identifier(_) => 3,
        Token::True => 4,
        Token::False => 5,
        Token::NoneLit => 6,
        Token::Inf => 7,
        Token::Nan => 8,
        Token::Plus => 9,
        Token::Minus => 10,
        Token::Not => 11,
        Token::Star => 12,
        Token::Slash => 13,
        Token::Let => 14,
        Token::Mut => 15,
        Token::Assign => 16,
        Token::EqEq => 17,
        Token::NotEq => 18,
        Token::Lt => 19,
        Token::Gt => 20,
        Token::LtEq => 21,
        Token::GtEq => 22,
        Token::DotDot => 23,
        Token::Or => 24,
        Token::And => 25,
        Token::If => 26,
        Token::Then => 27,
        Token::Else => 28,
        Token::Func => 29,
        Token::Return => 30,
        Token::For => 31,
        Token::In => 32,
        Token::Do => 33,
        Token::Data => 34,
        Token::Annotation => 35,
        Token::Error => 36,
        Token::Trait => 37,
        Token::Provides => 38,
        Token::Is => 39,
        Token::Match => 40,
        Token::Pipe => 41,
        Token::Import => 42,
        Token::As => 43,
        Token::Dot => 44,
        Token::Arrow => 45,
        Token::Colon => 46,
        Token::LeftParen => 47,
        Token::LeftBracket => 48,
        Token::LeftBrace => 49,
        Token::RightParen => 50,
        Token::RightBracket => 51,
        Token::RightBrace => 52,
        Token::Comma => 53,
        Token::Exclamation => 54,
        Token::Question => 55,
        Token::Semicolon => 56,
        Token::Hash => 57,
        Token::Catch => 58,
        Token::Newline => 59,
        Token::EOF => 60,
    }
}

impl Token {
    fn kind(&self) -> (r: u8)
        ensures
            r == kind_of(*self),
    {
        match self {
            Token::Float(_) => 0,
            Token::Int(_) => 1,
            Token::String(_) => 2,
            Token::Identifier(_) => 3,
            Token::True => 4,
            Token::False => 5,
            Token::NoneLit => 6,
            Token::Inf => 7,
            Token::Nan => 8,
            Token::Plus => 9,
            Token::Minus => 10,
            Token::Not => 11,
            Token::Star => 12,
            Token::Slash => 13,
            Token::Let => 14,
            Token::Mut => 15,
            Token::Assign => 16,
            Token::EqEq => 17,
            Token::NotEq => 18,
            Token::Lt => 19,
            Token::Gt => 20,
            Token::LtEq => 21,
            Token::GtEq => 22,
            Token::DotDot => 23,
            Token::Or => 24,
            Token::And => 25,
            Token::If => 26,
            Token::Then => 27,
            Token::Else => 28,
            Token::Func => 29,
            Token::Return => 30,
            Token::For => 31,
            Token::In => 32,
            Token::Do => 33,
            Token::Data => 34,
            Token::Annotation => 35,
            Token::Error => 36,
            Token::Trait => 37,
            Token::Provides => 38,
            Token::Is => 39,
            Token::Match => 40,
            Token::Pipe => 41,
            Token::Import => 42,
            Token::As => 43,
            Token::Dot => 44,
            Token::Arrow => 45,
            Token::Colon => 46,
            Token::LeftParen => 47,
            Token::LeftBracket => 48,
            Token::LeftBrace => 49,
            Token::RightParen => 50,
            Token::RightBracket => 51,
            Token::RightBrace => 52,
            Token::Comma => 53,
            Token::Exclamation => 54,
            Token::Question => 55,
            Token::Semicolon => 56,
            Token::Hash => 57,
            Token::Catch => 58,
            Token::Newline => 59,
            Token::EOF => 60,
        }
    }

    /// Whether two tokens are equal.
    pub fn same(&self, other: &Token) -> (r: bool)
        ensures
            r == (self@ == other@),
    {
        match (self, other) {
            (Token::Float(a), Token::Float(b)) => same_text(a.as_str(), b.as_str()),
            (Token::Int(a), Token::Int(b)) => *a == *b,
            (Token::String(a), Token::String(b)) => same_text(a.as_str(), b.as_str()),
            (Token::Identifier(a), Token::Identifier(b)) => same_text(a.as_str(), b.as_str()),
            _ => {
                let r = self.kind() == other.kind();
                assert(r == (self@ == other@));
                r
            },
        }
    }

    /// A copy of this token.
    pub fn dup(&self) -> (r: Token)
        ensures
            r == *self,
    {
        match self {
            Token::Float(s) => Token::Float(s.clone()),
            Token::Int(n) => Token::Int(*n),
            Token::String(s) => Token::String(s.clone()),
            Token::Identifier(s) => Token::Identifier(s.clone()),
            Token::True => Token::True,
            Token::False => Token::False,
            Token::NoneLit => Token::NoneLit,
            Token::Inf => Token::Inf,
            Token::Nan => Token::Nan,
            Token::Plus => Token::Plus,
            Token::Minus => Token::Minus,
            Token::Not => Token::Not,
            Token::Star => Token::Star,
            Token::Slash => Token::Slash,
            Token::Let => Token::Let,
            Token::Mut => Token::Mut,
            Token::Assign => Token::Assign,
            Token::EqEq => Token::EqEq,
            Token::NotEq => Token::NotEq,
            Token::Lt => Token::Lt,
            Token::Gt => Token::Gt,
            Token::LtEq => Token::LtEq,
            Token::GtEq => Token::GtEq,
            Token::DotDot => Token::DotDot,
            Token::Or => Token::Or,
            Token::And => Token::And,
            Token::If => Token::If,
            Token::Then => Token::Then,
            Token::Else => Token::Else,
            Token::Func => Token::Func,
            Token::Return => Token::Return,
            Token::For => Token::For,
            Token::In => Token::In,
            Token::Do => Token::Do,
            Token::Data => Token::Data,
            Token::Annotation => Token::Annotation,
            Token::Error => Token::Error,
            Token::Trait => Token::Trait,
            Token::Provides => Token::Provides,
            Token::Is => Token::Is,
            Token::Match => Token::Match,
            Token::Pipe => Token::Pipe,
            Token::Import => Token::Import,
            Token::As => Token::As,
            Token::Dot => Token::Dot,
            Token::Arrow => Token::Arrow,
            Token::Colon => Token::Colon,
            Token::LeftParen => Token::LeftParen,
            Token::LeftBracket => Token::LeftBracket,
            Token::LeftBrace => Token::LeftBrace,
            Token::RightParen => Token::RightParen,
            Token::RightBracket => Token::RightBracket,
            Token::RightBrace => Token::RightBrace,
            Token::Comma => Token::Comma,
            Token::Exclamation => Token::Exclamation,
            Token::Question => Token::Question,
            Token::Semicolon => Token::Semicolon,
            Token::Hash => Token::Hash,
            Token::Catch => Token::Catch,
            Token::Newline => Token::Newline,
            Token::EOF => Token::EOF,
        }
    }
}

/// The keyword that a name spells.
pub open spec fn keyword(s: Seq<char>) -> Option<Token> {
    if s == "true"@ {
        Some(Token::True)
    } else if s == "false"@ {
        Some(Token::False)
    } else if s == "none"@ {
        Some(Token::NoneLit)
    } else if s == "inf"@ {
        Some(Token::Inf)
    } else if s == "nan"@ {
        Some(Token::Nan)
    } else if s == "not"@ {
        Some(Token::Not)
    } else if s == "let"@ {
        Some(Token::Let)
    } else if s == "mut"@ {
        Some(Token::Mut)
    } else if s == "or"@ {
        Some(Token::Or)
    } else if s == "and"@ {
        Some(Token::And)
    } else if s == "if"@ {
        Some(Token::If)
    } else if s == "then"@ {
        Some(Token::Then)
    } else if s == "else"@ {
        Some(Token::Else)
    } else if s == "func"@ {
        Some(Token::Func)
    } else if s == "return"@ {
        Some(Token::Return)
    } else if s == "for"@ {
        Some(Token::For)
    } else if s == "in"@ {
        Some(Token::In)
    } else if s == "do"@ {
        Some(Token::Do)
    } else if s == "data"@ {
        Some(Token::Data)
    } else if s == "annotation"@ {
        Some(Token::Annotation)
    } else if s == "error"@ {
        Some(Token::Error)
    } else if s == "trait"@ {
        Some(Token::Trait)
    } else if s == "provides"@ {
        Some(Token::Provides)
    } else if s == "is"@ {
        Some(Token::Is)
    } else if s == "match"@ {
        Some(Token::Match)
    } else if s == "import"@ {
        Some(Token::Import)
    } else if s == "as"@ {
        Some(Token::As)
    } else if s == "catch"@ {
        Some(Token::Catch)
    } else {
        None
    }
}

impl Token {
    /// The keyword that this name spells.
    pub fn from_keyword(s: &str) -> (r: Option<Token>)
        ensures
            r == keyword(s@),
    {
        if same_text(s, "true") {
            Some(Token::True)
        } else if same_text(s, "false") {
            Some(Token::False)
        } else if same_text(s, "none") {
            Some(Token::NoneLit)
        } else if same_text(s, "inf") {
            Some(Token::Inf)
        } else if same_text(s, "nan") {
            Some(Token::Nan)
        } else if same_text(s, "not") {
            Some(Token::Not)
        } else if same_text(s, "let") {
            Some(Token::Let)
        } else if same_text(s, "mut") {
            Some(Token::Mut)
        } else if same_text(s, "or") {
            Some(Token::Or)
        } else if same_text(s, "and") {
            Some(Token::And)
        } else if same_text(s, "if") {
            Some(Token::If)
        } else if same_text(s, "then") {
            Some(Token::Then)
        } else if same_text(s, "else") {
            Some(Token::Else)
        } else if same_text(s, "func") {
            Some(Token::Func)
        } else if same_text(s, "return") {
            Some(Token::Return)
        } else if same_text(s, "for") {
            Some(Token::For)
        } else if same_text(s, "in") {
            Some(Token::In)
        } else if same_text(s, "do") {
            Some(Token::Do)
        } else if same_text(s, "data") {
            Some(Token::Data)
        } else if same_text(s, "annotation") {
            Some(Token::Annotation)
        } else if same_text(s, "error") {
            Some(Token::Error)
        } else if same_text(s, "trait") {
            Some(Token::Trait)
        } else if same_text(s, "provides") {
            Some(Token::Provides)
        } else if same_text(s, "is") {
            Some(Token::Is)
        } else if same_text(s, "match") {
            Some(Token::Match)
        } else if same_text(s, "import") {
            Some(Token::Import)
        } else if same_text(s, "as") {
            Some(Token::As)
        } else if same_text(s, "catch") {
            Some(Token::Catch)
        } else {
            None
        }
    }
}

/// A keyword is told apart by its variant alone, and is not the end.
pub proof fn keyword_views(s: Seq<char>)
    ensures
        keyword(s) matches Some(t) ==> t@ == Tok::Word(t) && t != Token::EOF,
{
}

/// An operator is told apart by its variant alone, and is not the end.
pub proof fn operator_views(s: Seq<char>)
    ensures
        operator(s) matches Some(t) ==> t@ == Tok::Word(t) && t != Token::EOF,
{
}

/// The operator or bracket that a text spells.
pub open spec fn operator(s: Seq<char>) -> Option<Token> {
    if s == "+"@ {
        Some(Token::Plus)
    } else if s == "-"@ {
        Some(Token::Minus)
    } else if s == "*"@ {
        Some(Token::Star)
    } else if s == "/"@ {
        Some(Token::Slash)
    } else if s == "="@ {
        Some(Token::Assign)
    } else if s == "=="@ {
        Some(Token::EqEq)
    } else if s == "!="@ {
        Some(Token::NotEq)
    } else if s == "<"@ {
        Some(Token::Lt)
    } else if s == ">"@ {
        Some(Token::Gt)
    } else if s == "<="@ {
        Some(Token::LtEq)
    } else if s == ">="@ {
        Some(Token::GtEq)
    } else if s == ".."@ {
        Some(Token::DotDot)
    } else if s == "|"@ {
        Some(Token::Pipe)
    } else if s == "."@ {
        Some(Token::Dot)
    } else if s == "->"@ {
        Some(Token::Arrow)
    } else if s == ":"@ {
        Some(Token::Colon)
    } else if s == "("@ {
        Some(Token::LeftParen)
    } else if s == "["@ {
        Some(Token::LeftBracket)
    } else if s == "{"@ {
        Some(Token::LeftBrace)
    } else if s == ")"@ {
        Some(Token::RightParen)
    } else if s == "]"@ {
        Some(Token::RightBracket)
    } else if s == "}"@ {
        Some(Token::RightBrace)
    } else if s == ","@ {
        Some(Token::Comma)
    } else if s == "!"@ {
        Some(Token::Exclamation)
    } else if s == "?"@ {
        Some(Token::Question)
    } else if s == ";"@ {
        Some(Token::Semicolon)
    } else if s == "#"@ {
        Some(Token::Hash)
    } else {
        None
    }
}

impl Token {
    /// The operator or bracket that this text spells.
    pub fn from_operator(s: &str) -> (r: Option<Token>)
        ensures
            r == operator(s@),
    {
        if same_text(s, "+") {
            Some(Token::Plus)
        } else if same_text(s, "-") {
            Some(Token::Minus)
        } else if same_text(s, "*") {
            Some(Token::Star)
        } else if same_text(s, "/") {
            Some(Token::Slash)
        } else if same_text(s, "=") {
            Some(Token::Assign)
        } else if same_text(s, "==") {
            Some(Token::EqEq)
        } else if same_text(s, "!=") {
            Some(Token::NotEq)
        } else if same_text(s, "<") {
            Some(Token::Lt)
        } else if same_text(s, ">") {
            Some(Token::Gt)
        } else if same_text(s, "<=") {
            Some(Token::LtEq)
        } else if same_text(s, ">=") {
            Some(Token::GtEq)
        } else if same_text(s, "..") {
            Some(Token::DotDot)
        } else if same_text(s, "|") {
            Some(Token::Pipe)
        } else if same_text(s, ".") {
            Some(Token::Dot)
        } else if same_text(s, "->") {
            Some(Token::Arrow)
        } else if same_text(s, ":") {
            Some(Token::Colon)
        } else if same_text(s, "(") {
            Some(Token::LeftParen)
        } else if same_text(s, "[") {
            Some(Token::LeftBracket)
        } else if same_text(s, "{") {
            Some(Token::LeftBrace)
        } else if same_text(s, ")") {
            Some(Token::RightParen)
        } else if same_text(s, "]") {
            Some(Token::RightBracket)
        } else if same_text(s, "}") {
            Some(Token::RightBrace)
        } else if same_text(s, ",") {
            Some(Token::Comma)
        } else if same_text(s, "!") {
            Some(Token::Exclamation)
        } else if same_text(s, "?") {
            Some(Token::Question)
        } else if same_text(s, ";") {
            Some(Token::Semicolon)
        } else if same_text(s, "#") {
            Some(Token::Hash)
        } else {
            None
        }
    }
}

/// The spelling of a token that is told apart by its variant alone.
pub open spec fn spelling(t: Token) -> Seq<char> {
    match t {
        Token::True => "true"@,
        Token::False => "false"@,
        Token::NoneLit => "none"@,
        Token::Inf => "inf"@,
        Token::Nan => "nan"@,
        Token::Not => "not"@,
        Token::Let => "let"@,
        Token::Mut => "mut"@,
        Token::Or => "or"@,
        Token::And => "and"@,
        Token::If => "if"@,
        Token::Then => "then"@,
        Token::Else => "else"@,
        Token::Func => "func"@,
        Token::Return => "return"@,
        Token::For => "for"@,
        Token::In => "in"@,
        Token::Do => "do"@,
        Token::Data => "data"@,
        Token::Annotation => "annotation"@,
        Token::Error => "error"@,
        Token::Trait => "trait"@,
        Token::Provides => "provides"@,
        Token::Is => "is"@,
        Token::Match => "match"@,
        Token::Import => "import"@,
        Token::As => "as"@,
        Token::Catch => "catch"@,
        Token::Plus => "+"@,
        Token::Minus => "-"@,
        Token::Star => "*"@,
        Token::Slash => "/"@,
        Token::Assign => "="@,
        Token::EqEq => "=="@,
        Token::NotEq => "!="@,
        Token::Lt => "<"@,
        Token::Gt => ">"@,
        Token::LtEq => "<="@,
        Token::GtEq => ">="@,
        Token::DotDot => ".."@,
        Token::Pipe => "|"@,
        Token::Dot => "."@,
        Token::Arrow => "->"@,
        Token::Colon => ":"@,
        Token::LeftParen => "("@,
        Token::LeftBracket => "["@,
        Token::LeftBrace => "{"@,
        Token::RightParen => ")"@,
        Token::RightBracket => "]"@,
        Token::RightBrace => "}"@,
        Token::Comma => ","@,
        Token::Exclamation => "!"@,
        Token::Question => "?"@,
        Token::Semicolon => ";"@,
        Token::Hash => "#"@,
        Token::Newline => "\n"@,
        Token::EOF => "<EOF>"@,
        _ => Seq::empty(),
    }
}

fn word_text(t: &Token) -> (r: &'static str)
    ensures
        r@ == spelling(*t),
{
    proof {
        reveal_strlit("");
        assert(""@ =~= Seq::<char>::empty());
    }
    match t {
        Token::True => "true",
        Token::False => "false",
        Token::NoneLit => "none",
        Token::Inf => "inf",
        Token::Nan => "nan",
        Token::Not => "not",
        Token::Let => "let",
        Token::Mut => "mut",
        Token::Or => "or",
        Token::And => "and",
        Token::If => "if",
        Token::Then => "then",
        Token::Else => "else",
        Token::Func => "func",
        Token::Return => "return",
        Token::For => "for",
        Token::In => "in",
        Token::Do => "do",
        Token::Data => "data",
        Token::Annotation => "annotation",
        Token::Error => "error",
        Token::Trait => "trait",
        Token::Provides => "provides",
        Token::Is => "is",
        Token::Match => "match",
        Token::Import => "import",
        Token::As => "as",
        Token::Catch => "catch",
        Token::Plus => "+",
        Token::Minus => "-",
        Token::Star => "*",
        Token::Slash => "/",
        Token::Assign => "=",
        Token::EqEq => "==",
        Token::NotEq => "!=",
        Token::Lt => "<",
        Token::Gt => ">",
        Token::LtEq => "<=",
        Token::GtEq => ">=",
        Token::DotDot => "..",
        Token::Pipe => "|",
        Token::Dot => ".",
        Token::Arrow => "->",
        Token::Colon => ":",
        Token::LeftParen => "(",
        Token::LeftBracket => "[",
        Token::LeftBrace => "{",
        Token::RightParen => ")",
        Token::RightBracket => "]",
        Token::RightBrace => "}",
        Token::Comma => ",",
        Token::Exclamation => "!",
        Token::Question => "?",
        Token::Semicolon => ";",
        Token::Hash => "#",
        Token::Newline => "\n",
        Token::EOF => "<EOF>",
        _ => "",
    }
}

/// `n` in decimal notation, with a sign where it is negative.
pub open spec fn signed(n: int) -> Seq<char> {
    if n < 0 {
        seq!['-'] + crate::text::decimal((-n) as nat)
    } else {
        crate::text::decimal(n as nat)
    }
}

/// Appends `n` in decimal notation, with a sign where it is negative.
pub fn push_signed(out: &mut String, n: i64)
    ensures
        final(out)@ == old(out)@ + signed(n as int),
{
    if n < 0 {
        out.push('-');
        let ghost mid = out@;
        let m: u64 = if n == i64::MIN { 0x8000_0000_0000_0000u64 } else { (-n) as u64 };
        push_decimal(out, m);
        assert(out@ =~= old(out)@ + signed(n as int));
    } else {
        push_decimal(out, n as u64);
    }
}

/// How a token is shown in a message.
pub open spec fn shown(t: Tok) -> Seq<char> {
    match t {
        Tok::Float(s) => s,
        Tok::Int(n) => signed(n as int),
        Tok::Text(s) => seq!['"'] + s + seq!['"'],
        Tok::Name(s) => s,
        Tok::Word(w) => spelling(w),
    }
}

impl Token {
    /// How this token is shown in a message: a string in quotes, everything else
    /// as it is spelled.
    pub fn show(&self) -> (r: String)
        ensures
            r@ == shown(self@),
    {
        match self {
            Token::Float(s) => s.clone(),
            Token::Int(n) => {
                let mut out = String::new();
                push_signed(&mut out, *n);
                assert(out@ =~= signed(*n as int));
                out
            },
            Token::String(s) => {
                let mut out = String::new();
                out.push('"');
                out.append(s.as_str());
                out.push('"');
                assert(out@ =~= seq!['"'] + s@ + seq!['"']);
                out
            },
            Token::Identifier(s) => s.clone(),
            _ => owned(word_text(self)),
        }
    }
}

/// A place in the source: line and column, both counted from zero.
#[derive(Debug, PartialEq, Eq, Clone, Copy, Structural)]
pub struct Position {
    pub line: u32,
    pub col: u32,
}

/// How a position is shown.
pub open spec fn shown_position(p: Position) -> Seq<char> {
    crate::text::decimal(p.line as nat) + seq![':'] + crate::text::decimal(p.col as nat)
}

impl Position {
    /// `line:col`.
    pub fn show(&self) -> (r: String)
        ensures
            r@ == shown_position(*self),
    {
        let mut out = String::new();
        push_decimal(&mut out, self.line as u64);
        out.push(':');
        push_decimal(&mut out, self.col as u64);
        assert(out@ =~= shown_position(*self));
        out
    }
}

/// A stretch of the source.
#[derive(Debug, PartialEq, Eq, Clone, Copy, Structural)]
pub struct Span {
    pub start: Position,
    pub end: Position,
}

impl Span {
    /// The stretch from the start of this one to the end of `other`.
    pub fn merge(self, other: Span) -> (r: Span)
        ensures
            r == merged(self, other),
    {
        Span { start: self.start, end: other.end }
    }

    /// The stretch between two pairs of line and column.
    pub fn new(start: (u32, u32), end: (u32, u32)) -> (r: Span)
        ensures
            r.start == (Position { line: start.0, col: start.1 }),
            r.end == (Position { line: end.0, col: end.1 }),
    {
        Span {
            start: Position { line: start.0, col: start.1 },
            end: Position { line: end.0, col: end.1 },
        }
    }

    /// `(start .. end)`.
    pub fn show(&self) -> (r: String)
        ensures
            r@ == shown_span(*self),
    {
        let mut out = String::new();
        out.push('(');
        out.append(self.start.show().as_str());
        out.append(" .. ");
        out.append(self.end.show().as_str());
        out.push(')');
        proof {
            reveal_strlit(" .. ");
            assert(" .. "@ =~= seq![' ', '.', '.', ' ']);
            assert(out@ =~= shown_span(*self));
        }
        out
    }
}

/// The stretch from the start of `a` to the end of `b`.
pub open spec fn merged(a: Span, b: Span) -> Span {
    Span { start: a.start, end: b.end }
}

/// How a span is shown.
pub open spec fn shown_span(s: Span) -> Seq<char> {
    seq!['('] + shown_position(s.start) + seq![' ', '.', '.', ' '] + shown_position(s.end) + seq![')']
}

/// Something together with the stretch of the source that it came from.
#[derive(Debug, PartialEq, Clone)]
pub struct Spanned<T> {
    pub span: Span,
    pub item: T,
}

impl<T> Spanned<T> {
    /// `item` between two positions.
    pub fn new(item: T, start: Position, end: Position) -> (r: Self)
        ensures
            r == (Spanned { span: Span { start, end }, item }),
    {
        Spanned { span: Span { start, end }, item }
    }

    /// What `op` makes of the item, at the same place.
    pub fn map<U, F: FnOnce(T) -> U>(self, op: F) -> (r: Spanned<U>)
        requires
            call_requires(op, (self.item,)),
        ensures
            r.span == self.span,
            call_ensures(op, (self.item,), r.item),
    {
        Spanned { span: self.span, item: op(self.item) }
    }

    /// Another item at the same place.
    pub fn to<U>(self, item: U) -> (r: Spanned<U>)
        ensures
            r == (Spanned { span: self.span, item }),
    {
        Spanned { span: self.span, item }
    }

    /// `item` at `span`.
    pub fn from(item: T, span: Span) -> (r: Self)
        ensures
            r == (Spanned { span, item }),
    {
        Spanned { span, item }
    }
}

} // verus!
