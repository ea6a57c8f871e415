//! That tokens are read as they are spelled: what a token is shown as, the
//! lexer reads as that token.
use crate::lexer::{
    all_digits, ascii_digit, bumped_by, collected, comment_onward, digit, digits_value, name_char, name_start, next,
    next_goes_forward, number, past_exponent, past_name, past_number, past_spaces, space, token_at, Lex, LexerError,
};
use crate::text::{decimal, digit_char};
use crate::tokens::{keyword, operator, shown, spelling, Span, Tok, Token};
use vstd::prelude::*;

verus! {

/// Whether a token is spelled with letters.
pub open spec fn lettered(t: Token) -> bool {
    spelling(t).len() > 0 && name_start(spelling(t)[0])
}

/// Whether a token is one that a text on one line can spell: a keyword, an
/// operator or bracket, a name that is no keyword, or a whole number.
pub open spec fn readable(t: Tok) -> bool {
    match t {
        Tok::Word(w) => spelling(w).len() > 0 && w != Token::Newline && w != Token::EOF,
        Tok::Name(s) => {
            &&& s.len() > 0
            &&& name_start(s[0])
            &&& forall|i: int| 0 <= i < s.len() ==> name_char(#[trigger] s[i])
            &&& forall|w: Token| #[trigger] lettered(w) ==> spelling(w) != s
        },
        Tok::Int(n) => n >= 0,
        _ => false,
    }
}

/// Whether a token ends before `c`.
pub open spec fn ends_before(t: Tok, c: char) -> bool {
    match t {
        Tok::Int(_) => !digit(c) && c != '.' && c != 'e',
        Tok::Word(w) => if lettered(w) {
            !name_char(c)
        } else {
            space(c) || name_char(c)
        },
        _ => !name_char(c),
    }
}

/// Whether `s` stands in the text from where it is read.
pub open spec fn stands(l: Lex, s: Seq<char>) -> bool {
    l.left() >= s.len() && l.text.subrange(l.pos, l.pos + s.len()) == s
}

/// Whether a token is spelled with marks.
pub open spec fn marked(t: Token) -> bool {
    spelling(t).len() > 0 && !name_start(spelling(t)[0]) && t != Token::Newline && t != Token::EOF
}

proof fn keywords_read(t: Token)
    requires
        lettered(t),
    ensures
        keyword(spelling(t)) == Some(t),
        forall|i: int| 0 <= i < spelling(t).len() ==> name_char(#[trigger] spelling(t)[i]),
        t != Token::Newline,
        t != Token::EOF,
{
    reveal_strlit("true");
    reveal_strlit("false");
    reveal_strlit("none");
    reveal_strlit("inf");
    reveal_strlit("nan");
    reveal_strlit("not");
    reveal_strlit("let");
    reveal_strlit("mut");
    reveal_strlit("or");
    reveal_strlit("and");
    reveal_strlit("if");
    reveal_strlit("then");
    reveal_strlit("else");
    reveal_strlit("func");
    reveal_strlit("return");
    reveal_strlit("for");
    reveal_strlit("in");
    reveal_strlit("do");
    reveal_strlit("data");
    reveal_strlit("annotation");
    reveal_strlit("error");
    reveal_strlit("trait");
    reveal_strlit("provides");
    reveal_strlit("is");
    reveal_strlit("match");
    reveal_strlit("import");
    reveal_strlit("as");
    reveal_strlit("catch");
    reveal_strlit("\n");
    reveal_strlit("<EOF>");
    reveal_strlit("+");
    reveal_strlit("-");
    reveal_strlit("*");
    reveal_strlit("/");
    reveal_strlit("=");
    reveal_strlit("==");
    reveal_strlit("!=");
    reveal_strlit("<");
    reveal_strlit(">");
    reveal_strlit("<=");
    reveal_strlit(">=");
    reveal_strlit("..");
    reveal_strlit("|");
    reveal_strlit(".");
    reveal_strlit("->");
    reveal_strlit(":");
    reveal_strlit("(");
    reveal_strlit("[");
    reveal_strlit("{");
    reveal_strlit(")");
    reveal_strlit("]");
    reveal_strlit("}");
    reveal_strlit(",");
    reveal_strlit("!");
    reveal_strlit("?");
    reveal_strlit(";");
    reveal_strlit("#");
    assert("nan"@[1] == 'a' && "not"@[1] == 'o');
    assert("true"@[1] == 'r' && "then"@[1] == 'h');
    assert("if"@[1] == 'f' && "in"@[1] == 'n' && "is"@[1] == 's');
}

proof fn a_keyword_is_spelled(s: Seq<char>)
    ensures
        keyword(s) matches Some(t) ==> lettered(t) && spelling(t) == s,
{
    reveal_strlit("true");
    reveal_strlit("false");
    reveal_strlit("none");
    reveal_strlit("inf");
    reveal_strlit("nan");
    reveal_strlit("not");
    reveal_strlit("let");
    reveal_strlit("mut");
    reveal_strlit("or");
    reveal_strlit("and");
    reveal_strlit("if");
    reveal_strlit("then");
    reveal_strlit("else");
    reveal_strlit("func");
    reveal_strlit("return");
    reveal_strlit("for");
    reveal_strlit("in");
    reveal_strlit("do");
    reveal_strlit("data");
    reveal_strlit("annotation");
    reveal_strlit("error");
    reveal_strlit("trait");
    reveal_strlit("provides");
    reveal_strlit("is");
    reveal_strlit("match");
    reveal_strlit("import");
    reveal_strlit("as");
    reveal_strlit("catch");
}

proof fn marks_read(t: Token)
    requires
        marked(t),
    ensures
        1 <= spelling(t).len() <= 2,
        operator(spelling(t)) == Some(t),
        forall|i: int|
            0 <= i < spelling(t).len() ==> {
                let c = #[trigger] spelling(t)[i];
                !name_char(c) && !space(c) && !ascii_digit(c) && c != '"'
            },
        spelling(t)[0] == '/' <==> t == Token::Slash,
        t == Token::Slash ==> spelling(t).len() == 1,
{
    reveal_strlit("true");
    reveal_strlit("false");
    reveal_strlit("none");
    reveal_strlit("inf");
    reveal_strlit("nan");
    reveal_strlit("not");
    reveal_strlit("let");
    reveal_strlit("mut");
    reveal_strlit("or");
    reveal_strlit("and");
    reveal_strlit("if");
    reveal_strlit("then");
    reveal_strlit("else");
    reveal_strlit("func");
    reveal_strlit("return");
    reveal_strlit("for");
    reveal_strlit("in");
    reveal_strlit("do");
    reveal_strlit("data");
    reveal_strlit("annotation");
    reveal_strlit("error");
    reveal_strlit("trait");
    reveal_strlit("provides");
    reveal_strlit("is");
    reveal_strlit("match");
    reveal_strlit("import");
    reveal_strlit("as");
    reveal_strlit("catch");
    reveal_strlit("+");
    reveal_strlit("-");
    reveal_strlit("*");
    reveal_strlit("/");
    reveal_strlit("=");
    reveal_strlit("==");
    reveal_strlit("!=");
    reveal_strlit("<");
    reveal_strlit(">");
    reveal_strlit("<=");
    reveal_strlit(">=");
    reveal_strlit("..");
    reveal_strlit("|");
    reveal_strlit(".");
    reveal_strlit("->");
    reveal_strlit(":");
    reveal_strlit("(");
    reveal_strlit("[");
    reveal_strlit("{");
    reveal_strlit(")");
    reveal_strlit("]");
    reveal_strlit("}");
    reveal_strlit(",");
    reveal_strlit("!");
    reveal_strlit("?");
    reveal_strlit(";");
    reveal_strlit("#");
}

// ── Runs of characters ───────────────────────────────────────────────────

proof fn bumps_count(l: Lex, n: int)
    requires
        l.valid(),
        0 <= n <= l.left(),
    ensures
        bumped_by(l, n).text == l.text,
        bumped_by(l, n).pos == l.pos + n,
        bumped_by(l, n).line == l.line,
        l.col + n <= u32::MAX ==> bumped_by(l, n).col == l.col + n,
    decreases n,
{
    if n > 0 {
        bumps_count(l.bumped(), n - 1);
    }
}

proof fn a_name_runs(l: Lex, n: int)
    requires
        l.valid(),
        0 <= n <= l.left(),
        forall|k: int| 0 <= k < n ==> name_char(#[trigger] l.text[l.pos + k]),
        l.ahead(n) matches Some(c) ==> !name_char(c),
    ensures
        past_name(l) == bumped_by(l, n),
    decreases n,
{
    if n > 0 {
        let b = l.bumped();
        assert(name_char(l.text[l.pos + 0]));
        assert forall|k: int| 0 <= k < n - 1 implies name_char(#[trigger] b.text[b.pos + k]) by {
            assert(name_char(l.text[l.pos + (k + 1)]));
        }
        assert(b.ahead(n - 1) == l.ahead(n));
        a_name_runs(b, n - 1);
    }
}

proof fn digits_run(l: Lex, n: int)
    requires
        l.valid(),
        0 <= n <= l.left(),
        forall|k: int| 0 <= k < n ==> ascii_digit(#[trigger] l.text[l.pos + k]),
        l.ahead(n) matches Some(c) ==> !digit(c) && c != '.',
    ensures
        past_number(l) == bumped_by(l, n),
    decreases n,
{
    if n > 0 {
        let b = l.bumped();
        assert(ascii_digit(l.text[l.pos + 0]));
        assert forall|k: int| 0 <= k < n - 1 implies ascii_digit(#[trigger] b.text[b.pos + k]) by {
            assert(ascii_digit(l.text[l.pos + (k + 1)]));
        }
        assert(b.ahead(n - 1) == l.ahead(n));
        digits_run(b, n - 1);
    }
}

proof fn a_number_is_spelled(n: nat)
    ensures
        decimal(n).len() > 0,
        all_digits(decimal(n)),
        digits_value(decimal(n)) == n,
    decreases n,
{
    reveal_with_fuel(digits_value, 2);
    if n < 10 {
        assert(decimal(n).drop_last() =~= Seq::<char>::empty());
    } else {
        a_number_is_spelled(n / 10);
        assert(decimal(n).drop_last() =~= decimal(n / 10));
        assert(decimal(n).last() == digit_char((n % 10) as int));
    }
}

// ── One token ────────────────────────────────────────────────────────────

/// Whether what follows the next `n` characters ends the token.
pub open spec fn ended(l: Lex, t: Tok, n: int) -> bool {
    l.ahead(n) matches Some(c) ==> ends_before(t, c)
}

proof fn stands_at(l: Lex, s: Seq<char>, k: int)
    requires
        l.valid(),
        stands(l, s),
        0 <= k < s.len(),
    ensures
        l.text[l.pos + k] == s[k],
        l.ahead(k) == Some(s[k]),
{
    assert(l.text.subrange(l.pos, l.pos + s.len())[k] == s[k]);
}

proof fn a_word_is_read(l: Lex, t: Tok, s: Seq<char>)
    requires
        l.valid(),
        stands(l, s),
        s.len() > 0,
        name_start(s[0]),
        forall|i: int| 0 <= i < s.len() ==> name_char(#[trigger] s[i]),
        l.ahead(s.len() as int) matches Some(c) ==> !name_char(c),
        keyword(s) matches Some(w) ==> t == Tok::Word(w),
        keyword(s) is None ==> t == Tok::Name(s),
    ensures
        token_at(l.bumped(), s[0]) == (Ok::<Tok, LexerError>(t), bumped_by(l, s.len() as int)),
{
    let p = l.bumped();
    stands_at(l, s, 0);
    assert forall|k: int| 0 <= k < s.len() - 1 implies name_char(#[trigger] p.text[p.pos + k]) by {
        stands_at(l, s, k + 1);
        assert(name_char(s[k + 1]));
    }
    assert(p.ahead(s.len() - 1) == l.ahead(s.len() as int));
    a_name_runs(p, s.len() - 1);
    bumps_count(l, s.len() as int);
}

proof fn a_whole_number_is_read(l: Lex, n: i64)
    requires
        l.valid(),
        n >= 0,
        stands(l, decimal(n as nat)),
        ended(l, Tok::Int(n), decimal(n as nat).len() as int),
    ensures
        ascii_digit(decimal(n as nat)[0]),
        token_at(l.bumped(), decimal(n as nat)[0]) == (
            Ok::<Tok, LexerError>(Tok::Int(n)),
            bumped_by(l, decimal(n as nat).len() as int),
        ),
{
    let s = decimal(n as nat);
    let p = l.bumped();
    a_number_is_spelled(n as nat);
    stands_at(l, s, 0);
    assert(ascii_digit(s[0]));
    assert forall|k: int| 0 <= k < s.len() - 1 implies ascii_digit(#[trigger] p.text[p.pos + k]) by {
        stands_at(l, s, k + 1);
        assert(ascii_digit(s[k + 1]));
    }
    assert(p.ahead(s.len() - 1) == l.ahead(s.len() as int));
    digits_run(p, s.len() - 1);
    bumps_count(l, s.len() as int);
    let end = bumped_by(l, s.len() as int);
    assert(end.ahead(0) == l.ahead(s.len() as int));
    assert(past_exponent(end) == end);
}

proof fn a_mark_is_read(l: Lex, t: Token)
    requires
        l.valid(),
        marked(t),
        stands(l, spelling(t)),
        ended(l, Tok::Word(t), spelling(t).len() as int),
    ensures
        token_at(l.bumped(), spelling(t)[0]) == (
            Ok::<Tok, LexerError>(Tok::Word(t)),
            bumped_by(l, spelling(t).len() as int),
        ),
{
    let s = spelling(t);
    let p = l.bumped();
    marks_read(t);
    stands_at(l, s, 0);
    reveal_with_fuel(bumped_by, 3);
    let c = s[0];
    assert(!name_char(c) && !space(c));
    if s.len() == 1 {
        assert(seq![c] =~= s);
        assert(p.ahead(0) == l.ahead(1));
    } else {
        stands_at(l, s, 1);
        assert(p.ahead(0) == Some(s[1]));
        assert(!name_char(s[1]) && !space(s[1]));
        assert(seq![c, s[1]] =~= s);
    }
}

/// A token that stands in a text as it is spelled, and that ends there, is what
/// the lexer reads; it has the place of its spelling, and reading goes on behind
/// it.
pub proof fn a_token_is_read_as_spelled(l: Lex, t: Tok)
    requires
        l.valid(),
        readable(t),
        stands(l, shown(t)),
        ended(l, t, shown(t).len() as int),
    ensures
        ({
            let after = next(l).1;
            &&& next(l).0 == Ok::<(Tok, Span), (LexerError, Span)>(
                (t, Span { start: l.here(), end: after.here() }),
            )
            &&& after.text == l.text
            &&& after.pos == l.pos + shown(t).len()
            &&& after.line == l.line
            &&& l.col + shown(t).len() <= u32::MAX ==> after.col == l.col + shown(t).len()
        }),
{
    reveal(next);
    let s = shown(t);
    let n = s.len() as int;
    match t {
        Tok::Word(w) => if lettered(w) {
            keywords_read(w);
            a_word_is_read(l, t, s);
        } else {
            marks_read(w);
            a_mark_is_read(l, w);
        },
        Tok::Name(name) => {
            a_keyword_is_spelled(name);
            a_word_is_read(l, t, s);
        },
        Tok::Int(i) => {
            a_number_is_spelled(i as nat);
            a_whole_number_is_read(l, i);
        },
        _ => {},
    }
    stands_at(l, s, 0);
    bumps_count(l, n);
    let c = s[0];
    assert(!space(c));
    assert(past_spaces(l) == l);
    let p = l.bumped();
    if c == '/' {
        assert(p.ahead(0) == l.ahead(1));
    }
}

// ── Lines of tokens ──────────────────────────────────────────────────────

/// Tokens as they are spelled, with a space before each.
pub open spec fn line_of(ts: Seq<Tok>) -> Seq<char>
    decreases ts.len(),
{
    if ts.len() == 0 {
        Seq::empty()
    } else {
        seq![' '] + shown(ts[0]) + line_of(ts.skip(1))
    }
}

/// The tokens that were read, without their places.
pub open spec fn read(ts: Seq<(Tok, Span)>) -> Seq<Tok> {
    ts.map_values(|t: (Tok, Span)| t.0)
}

proof fn a_space_is_passed(l: Lex)
    requires
        l.valid(),
        l.ahead(0) == Some(' '),
        l.ahead(1) matches Some(c) ==> !space(c),
    ensures
        next(l) == next(l.bumped()),
{
    reveal(next);
    let b = l.bumped();
    assert(b.ahead(0) == l.ahead(1));
    assert(past_spaces(b) == b);
    assert(past_spaces(l) == past_spaces(b));
    let p = b.bumped();
    if b.ahead(0) == Some('/') && p.ahead(0) == Some('/') {
        comment_onward(Lex { pos: p.pos + 1, ..p });
    }
}

proof fn the_line_goes_on(l: Lex, ts: Seq<Tok>, found: Seq<(Tok, Span)>, errors: Seq<(LexerError, Span)>)
    requires
        l.valid(),
        l.text.skip(l.pos) == line_of(ts),
        forall|i: int| 0 <= i < ts.len() ==> readable(#[trigger] ts[i]),
    ensures
        read(collected(l, found, errors).0) == read(found) + ts,
        collected(l, found, errors).1 == errors,
    decreases ts.len(),
{
    next_goes_forward(l);
    if ts.len() == 0 {
        assert(l.text.skip(l.pos).len() == 0);
        assert(read(found) + ts =~= read(found));
    } else {
        let t = ts[0];
        let s = shown(t);
        let rest = ts.skip(1);
        let all = line_of(ts);
        assert(readable(t));
        assert(all.len() == 1 + s.len() + line_of(rest).len());
        assert(l.text.skip(l.pos).len() == l.left());
        assert(l.text.skip(l.pos)[0] == all[0]);
        assert(l.ahead(0) == Some(' '));
        let b = l.bumped();
        assert(b.text.subrange(b.pos, b.pos + s.len()) =~= s) by {
            assert forall|k: int| 0 <= k < s.len() implies #[trigger] b.text.subrange(b.pos, b.pos + s.len())[k]
                == s[k] by {
                assert(l.text.skip(l.pos)[k + 1] == all[k + 1]);
            }
        }
        assert(ended(b, t, s.len() as int)) by {
            if rest.len() > 0 {
                assert(l.text.skip(l.pos)[s.len() as int + 1] == all[s.len() as int + 1]);
                assert(line_of(rest)[0] == ' ');
            }
        }
        a_token_is_read_as_spelled(b, t);
        starts_no_space(t);
        stands_at(b, s, 0);
        assert(l.ahead(1) == b.ahead(0));
        a_space_is_passed(l);
        let after = next(l).1;
        assert(after.text.skip(after.pos) =~= line_of(rest)) by {
            assert forall|k: int| 0 <= k < line_of(rest).len() implies #[trigger] after.text.skip(after.pos)[k]
                == line_of(rest)[k] by {
                assert(l.text.skip(l.pos)[1 + s.len() + k] == all[1 + s.len() + k]);
            }
        }
        assert forall|i: int| 0 <= i < rest.len() implies readable(#[trigger] rest[i]) by {
            assert(readable(ts[i + 1]));
        }
        let span = Span { start: b.here(), end: after.here() };
        the_line_goes_on(after, rest, found.push((t, span)), errors);
        assert(read(found.push((t, span))) =~= read(found).push(t));
        assert(read(found).push(t) + rest =~= read(found) + ts);
    }
}

proof fn starts_no_space(t: Tok)
    requires
        readable(t),
    ensures
        shown(t).len() > 0,
        !space(shown(t)[0]),
{
    match t {
        Tok::Word(w) => if !lettered(w) {
            marks_read(w);
        },
        Tok::Int(n) => {
            a_number_is_spelled(n as nat);
            assert(ascii_digit(decimal(n as nat)[0]));
        },
        _ => {},
    }
}

/// Tokens written on one line with spaces between them are read as those tokens,
/// all of them, in order, without an error.
pub proof fn a_line_is_read_as_its_tokens(ts: Seq<Tok>, line: u32, col: u32)
    requires
        line_of(ts).len() <= usize::MAX,
        forall|i: int| 0 <= i < ts.len() ==> readable(#[trigger] ts[i]),
    ensures
        ({
            let l = Lex { text: line_of(ts), pos: 0, line, col };
            let (tokens, errors) = collected(l, Seq::empty(), Seq::empty());
            &&& read(tokens) == ts
            &&& errors.len() == 0
        }),
{
    let l = Lex { text: line_of(ts), pos: 0, line, col };
    let none = Seq::<(Tok, Span)>::empty();
    assert(l.text.skip(0) =~= line_of(ts));
    the_line_goes_on(l, ts, none, Seq::empty());
    assert(read(none) + ts =~= ts);
}

} // verus!
