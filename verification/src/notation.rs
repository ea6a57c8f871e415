//! The notation of strings: what is printed reads back.
use crate::lexer::{
    bumped_by, escaped, hex_number, hex_run, hex_value, is_scalar, next, past_spaces, string_rest, unicode, Lex,
};
use crate::text::{chars_of, code};
use crate::tokens::Tok;
use vstd::prelude::*;

verus! {

/// Whether a character is a control character: one before the space, or one from
/// 7F to 9F.
pub open spec fn unprintable(c: char) -> bool {
    c < ' ' || '\u{7f}' <= c <= '\u{9f}'
}

/// `char::is_control`: whether a character is in the Unicode category Cc, which
/// is fixed: the codes up to 1F and those from 7F to 9F.
pub assume_specification[ char::is_control ](c: char) -> (r: bool)
    ensures
        r == unprintable(c),
;

/// A hexadecimal digit.
pub open spec fn hex_char(d: int) -> char {
    if d < 10 {
        ('0' as int + d) as char
    } else {
        ('a' as int + d - 10) as char
    }
}

fn hex_digit(d: u32) -> (r: char)
    requires
        d < 16,
    ensures
        r == hex_char(d as int),
{
    match d {
        0 => '0',
        1 => '1',
        2 => '2',
        3 => '3',
        4 => '4',
        5 => '5',
        6 => '6',
        7 => '7',
        8 => '8',
        9 => '9',
        10 => 'a',
        11 => 'b',
        12 => 'c',
        13 => 'd',
        14 => 'e',
        _ => 'f',
    }
}

/// A number in hexadecimal digits.
pub open spec fn hex(n: nat) -> Seq<char>
    decreases n,
{
    if n < 16 {
        seq![hex_char(n as int)]
    } else {
        hex(n / 16).push(hex_char((n % 16) as int))
    }
}

fn push_hex(out: &mut String, n: u32)
    ensures
        final(out)@ == old(out)@ + hex(n as nat),
    decreases n,
{
    if n < 16 {
        out.push(hex_digit(n));
        assert(out@ =~= old(out)@ + hex(n as nat));
    } else {
        push_hex(out, n / 16);
        out.push(hex_digit(n % 16));
        assert(out@ =~= old(out)@ + hex(n as nat));
    }
}

/// How a character is written within quotes. The two that would end or
/// continue the literal are escaped, and so are control characters.
pub open spec fn escape(c: char) -> Seq<char> {
    if c == '\n' {
        seq!['\\', 'n']
    } else if c == '\t' {
        seq!['\\', 't']
    } else if c == '\r' {
        seq!['\\', 'r']
    } else if c == '\\' {
        seq!['\\', '\\']
    } else if c == '"' {
        seq!['\\', '"']
    } else if c == '\0' {
        seq!['\\', '0']
    } else if unprintable(c) {
        seq!['\\', 'u', '{'] + hex(c as nat).push('}')
    } else {
        seq![c]
    }
}

/// How characters are written within quotes.
pub open spec fn escape_all(s: Seq<char>) -> Seq<char>
    decreases s.len(),
{
    if s.len() == 0 {
        Seq::empty()
    } else {
        escape_all(s.drop_last()) + escape(s.last())
    }
}

/// A string as a literal.
pub open spec fn quoted(s: Seq<char>) -> Seq<char> {
    seq!['"'] + escape_all(s).push('"')
}

fn push_escaped(out: &mut String, c: char)
    ensures
        final(out)@ == old(out)@ + escape(c),
{
    let ghost before = out@;
    if c == '\n' {
        out.push('\\');
        out.push('n');
    } else if c == '\t' {
        out.push('\\');
        out.push('t');
    } else if c == '\r' {
        out.push('\\');
        out.push('r');
    } else if c == '\\' {
        out.push('\\');
        out.push('\\');
    } else if c == '"' {
        out.push('\\');
        out.push('"');
    } else if c == '\0' {
        out.push('\\');
        out.push('0');
    } else if c.is_control() {
        out.push('\\');
        out.push('u');
        out.push('{');
        push_hex(out, code(c));
        out.push('}');
    } else {
        out.push(c);
    }
    assert(out@ =~= before + escape(c));
}

/// A string as a literal that reads back as the same string.
pub fn escape_str(s: &str) -> (r: String)
    ensures
        r@ == quoted(s@),
{
    let chars = chars_of(s);
    let mut out = String::new();
    out.push('"');
    let mut i: usize = 0;
    assert(out@ =~= seq!['"'] + escape_all(s@.take(0)));
    while i < chars.len()
        invariant
            i <= chars.len(),
            chars@ == s@,
            out@ == seq!['"'] + escape_all(s@.take(i as int)),
        decreases chars.len() - i,
    {
        push_escaped(&mut out, chars[i]);
        assert(s@.take(i + 1).drop_last() =~= s@.take(i as int));
        assert(out@ =~= seq!['"'] + escape_all(s@.take(i + 1)));
        i = i + 1;
    }
    assert(s@.take(i as int) =~= s@);
    out.push('"');
    assert(out@ =~= quoted(s@));
    out
}

// ── Reading back ─────────────────────────────────────────────────────────

proof fn hex_digits_read(d: int)
    requires
        0 <= d < 16,
    ensures
        hex_value(hex_char(d)) == Some(d as u32),
        hex_char(d) != '}',
{
}

proof fn hex_fits(n: nat)
    ensures
        hex(n).len() >= 1,
        n < 0x10 ==> hex(n).len() <= 1,
        n < 0x100 ==> hex(n).len() <= 2,
        n < 0x1000 ==> hex(n).len() <= 3,
        n < 0x10000 ==> hex(n).len() <= 4,
        n < 0x100000 ==> hex(n).len() <= 5,
        n < 0x1000000 ==> hex(n).len() <= 6,
        forall|k: int| 0 <= k < hex(n).len() ==> hex_value(#[trigger] hex(n)[k]) is Some,
    decreases n,
{
    if n >= 16 {
        hex_fits(n / 16);
        hex_digits_read((n % 16) as int);
        let h = hex(n / 16);
        assert forall|k: int| 0 <= k < hex(n).len() implies hex_value(#[trigger] hex(n)[k]) is Some by {
            if k < h.len() {
                assert(hex(n)[k] == h[k]);
            }
        }
    } else {
        hex_digits_read(n as int);
    }
}

proof fn hex_reads_back(l: Lex, n: nat)
    requires
        n < 0x1000000,
        forall|k: int| 0 <= k < hex(n).len() ==> l.ahead(k) == Some(#[trigger] hex(n)[k]),
    ensures
        hex_number(l, hex(n).len() as int) == n,
    decreases n,
{
    if n >= 16 {
        let h = hex(n / 16);
        assert forall|k: int| 0 <= k < h.len() implies l.ahead(k) == Some(#[trigger] h[k]) by {
            assert(hex(n)[k] == h[k]);
        }
        hex_reads_back(l, n / 16);
        hex_digits_read((n % 16) as int);
        assert(hex(n)[h.len() as int] == hex_char((n % 16) as int));
        assert(l.ahead(h.len() as int) == Some(hex_char((n % 16) as int)));
        assert(hex_number(l, h.len() as int) == n / 16);
        assert(hex(n).len() == h.len() + 1);
    } else {
        hex_digits_read(n as int);
        assert(hex(n)[0] == hex_char(n as int));
        assert(l.ahead(0) == Some(hex_char(n as int)));
        assert(hex_number(l, 0) == 0);
    }
}

proof fn hex_run_reaches(l: Lex, from: int, to: int)
    requires
        0 <= from <= to <= 6,
        forall|k: int| from <= k < to ==> (#[trigger] l.ahead(k)) is Some && hex_value(l.ahead(k)->0) is Some,
        to == 6 || l.ahead(to) == Some('}'),
    ensures
        hex_run(l, from) == to,
    decreases to - from,
{
    if from < to {
        assert(l.ahead(from) is Some);
        hex_run_reaches(l, from + 1, to);
    }
}

proof fn bumped_by_counts(l: Lex, n: int)
    requires
        0 <= n <= l.left(),
        0 <= l.pos,
    ensures
        bumped_by(l, n).pos == l.pos + n,
        bumped_by(l, n).text == l.text,
    decreases n,
{
    if n > 0 {
        bumped_by_counts(l.bumped(), n - 1);
    }
}

/// What is written, of what is left, by the character at the front.
proof fn escape_all_first(s: Seq<char>)
    requires
        s.len() > 0,
    ensures
        escape_all(s) == escape(s[0]) + escape_all(s.skip(1)),
    decreases s.len(),
{
    if s.len() == 1 {
        assert(s.drop_last() =~= Seq::<char>::empty());
        assert(s.skip(1) =~= Seq::<char>::empty());
        assert(escape_all(s) =~= escape(s[0]) + escape_all(s.skip(1)));
    } else {
        escape_all_first(s.drop_last());
        assert(s.drop_last().skip(1) =~= s.skip(1).drop_last());
        assert(s.skip(1).last() == s.last());
        assert(escape_all(s) =~= escape(s[0]) + escape_all(s.skip(1)));
    }
}

/// One escaped character reads back, and the rest follows.
proof fn escaped_char_reads(l: Lex, done: Seq<char>, c: char, tail: Seq<char>)
    requires
        l.valid(),
        l.text.skip(l.pos) == escape(c) + tail,
    ensures
        ({
            let after = bumped_by(l, escape(c).len() as int);
            &&& after.valid()
            &&& after.text == l.text
            &&& after.text.skip(after.pos) == tail
            &&& string_rest(l, done) == string_rest(after, done.push(c))
        }),
{
    let e = escape(c);
    let rest = e + tail;
    let t = l.text;
    assert(t.len() == l.pos + e.len() + tail.len()) by {
        assert(t.skip(l.pos).len() == t.len() - l.pos);
    }
    assert forall|k: int| 0 <= k < e.len() implies l.ahead(k) == Some(#[trigger] e[k]) by {
        assert(t.skip(l.pos)[k] == rest[k]);
    }
    bumped_by_counts(l, e.len() as int);
    let after = bumped_by(l, e.len() as int);
    assert(t.skip(after.pos) =~= tail) by {
        assert forall|k: int| 0 <= k < tail.len() implies t.skip(after.pos)[k] == tail[k] by {
            assert(t.skip(l.pos)[e.len() + k] == rest[e.len() + k]);
        }
    }
    assert(l.ahead(0) == Some(e[0]));
    let l1 = l.bumped();
    if c == '\n' || c == '\t' || c == '\r' || c == '\\' || c == '"' || c == '\0' {
        assert(l.ahead(1) == Some(e[1]));
        assert(l1.ahead(0) == Some(e[1]));
        let l2 = l1.bumped();
        assert(bumped_by(l, 2) == l2) by {
            reveal_with_fuel(bumped_by, 3);
        }
        assert(escaped(e[1]) == c);
    } else if unprintable(c) {
        let n = c as nat;
        let h = hex(n);
        hex_fits(n);
        assert(e =~= seq!['\\', 'u', '{'] + h.push('}'));
        assert(e.len() == h.len() + 4);
        assert(l.ahead(1) == Some(e[1]));
        assert(l1.ahead(0) == Some('u'));
        let l2 = l1.bumped();
        assert(l.ahead(2) == Some(e[2]));
        assert(l2.ahead(0) == Some('{'));
        let inner = Lex { pos: l2.pos + 1, ..l2 };
        assert forall|k: int| 0 <= k < h.len() implies inner.ahead(k) == Some(#[trigger] h[k]) by {
            assert(e[k + 3] == h[k]);
            assert(l.ahead(k + 3) == Some(e[k + 3]));
        }
        assert(inner.ahead(h.len() as int) == Some('}')) by {
            assert(e[h.len() as int + 3] == '}');
            assert(l.ahead(h.len() as int + 3) == Some(e[h.len() as int + 3]));
        }
        assert forall|k: int| 0 <= k < h.len() implies (#[trigger] inner.ahead(k)) is Some && hex_value(
            inner.ahead(k)->0,
        ) is Some by {
            assert(inner.ahead(k) == Some(h[k]));
        }
        hex_run_reaches(inner, 0, h.len() as int);
        hex_reads_back(inner, n);
        assert(is_scalar(n as u32));
        assert(unicode(l2) == Some((c, h.len() as int + 2)));
        bumped_by_counts(l2, h.len() as int + 2);
        assert(bumped_by(l, e.len() as int) == bumped_by(l2, h.len() as int + 2)) by {
            reveal_with_fuel(bumped_by, 3);
        }
    } else {
        assert(bumped_by(l, 1) == l1) by {
            reveal_with_fuel(bumped_by, 2);
        }
    }
}

proof fn written_rest_reads(l: Lex, done: Seq<char>, s: Seq<char>)
    requires
        l.valid(),
        l.text.skip(l.pos) == escape_all(s).push('"'),
    ensures
        string_rest(l, done).0 == Ok::<Seq<char>, crate::lexer::LexerError>(done + s),
        string_rest(l, done).1.left() == 0,
    decreases s.len(),
{
    if s.len() == 0 {
        assert(escape_all(s).push('"') =~= seq!['"']);
        assert(l.text.skip(l.pos)[0] == '"');
        assert(l.ahead(0) == Some('"'));
        assert(done + s =~= done);
    } else {
        escape_all_first(s);
        let tail = escape_all(s.skip(1)).push('"');
        assert(escape_all(s).push('"') =~= escape(s[0]) + tail);
        escaped_char_reads(l, done, s[0], tail);
        let after = bumped_by(l, escape(s[0]).len() as int);
        written_rest_reads(after, done.push(s[0]), s.skip(1));
        assert(done.push(s[0]) + s.skip(1) =~= done + s);
    }
}

/// What `escape_str` writes, the lexer reads back: one token, which is the
/// string, and nothing after it.
pub proof fn quoted_reads_back(s: Seq<char>)
    requires
        quoted(s).len() <= usize::MAX,
    ensures
        ({
            let (r, after) = next(Lex { text: quoted(s), pos: 0, line: 0, col: 0 });
            &&& r matches Ok((t, _)) && t == Tok::Text(s)
            &&& after.left() == 0
        }),
{
    reveal(next);
    let l = Lex { text: quoted(s), pos: 0, line: 0, col: 0 };
    assert(l.ahead(0) == Some('"'));
    assert(past_spaces(l) == l);
    let p = l.bumped();
    assert(p.text.skip(p.pos) =~= escape_all(s).push('"'));
    written_rest_reads(p, Seq::empty(), s);
    assert(Seq::<char>::empty() + s =~= s);
}

} // verus!
