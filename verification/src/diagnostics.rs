//! Error messages that show the line of the source that they are about.
use crate::text::{chars_of, decimal, push_decimal};
use crate::tokens::Span;
use vstd::prelude::*;
use vstd::string::StringExecFns;

verus! {

/// Where the line that starts at `i` ends.
pub open spec fn line_end(s: Seq<char>, i: int) -> int
    decreases s.len() - i,
{
    if i < 0 || i >= s.len() || s[i] == '\n' {
        i
    } else {
        line_end(s, i + 1)
    }
}

/// The line from `i` to `end`, without the carriage return before its newline.
pub open spec fn line_text(s: Seq<char>, i: int, end: int) -> Seq<char> {
    if end < s.len() && i < end && s[end - 1] == '\r' {
        s.subrange(i, end - 1)
    } else {
        s.subrange(i, end)
    }
}

/// The line that comes `n` lines after the one that starts at `i`. Past the
/// last line it is empty.
pub open spec fn line_after(s: Seq<char>, i: int, n: nat) -> Seq<char>
    decreases n,
{
    let end = line_end(s, i);
    if i >= s.len() {
        Seq::empty()
    } else if n == 0 {
        line_text(s, i, end)
    } else {
        line_after(s, end + 1, (n - 1) as nat)
    }
}

/// `n` times the same character.
pub open spec fn repeated(c: char, n: nat) -> Seq<char> {
    Seq::new(n, |i: int| c)
}

/// How many carets mark a place.
pub open spec fn caret_count(span: Span) -> nat {
    if span.end.line == span.start.line && span.end.col > span.start.col {
        (span.end.col - span.start.col) as nat
    } else {
        1
    }
}

/// The message, the place, and the line with carets under the place. Lines
/// and columns are counted from one for the reader.
pub open spec fn rendered(filename: Seq<char>, source: Seq<char>, span: Span, msg: Seq<char>) -> Seq<char> {
    let gutter = decimal((span.start.line + 1) as nat);
    let pad = repeated(' ', gutter.len());
    "error: "@ + msg + "\n"@ + pad + " --> "@ + filename + ":"@ + gutter + ":"@ + decimal((span.start.col + 1) as nat)
        + "\n"@ + pad + " |\n"@ + gutter + " | "@ + line_after(source, 0, span.start.line as nat) + "\n"@ + pad + " | "@
        + repeated(' ', span.start.col as nat) + repeated('^', caret_count(span))
}

fn push_repeated(out: &mut String, c: char, n: u32)
    ensures
        final(out)@ == old(out)@ + repeated(c, n as nat),
{
    let ghost before = out@;
    let mut i: u32 = 0;
    assert(out@ =~= before + repeated(c, 0));
    while i < n
        invariant
            i <= n,
            out@ == before + repeated(c, i as nat),
        decreases n - i,
    {
        out.push(c);
        assert(out@ =~= before + repeated(c, (i + 1) as nat));
        i = i + 1;
    }
}

fn push_spaces(out: &mut String, n: usize)
    ensures
        final(out)@ == old(out)@ + repeated(' ', n as nat),
{
    let ghost before = out@;
    let mut i: usize = 0;
    assert(out@ =~= before + repeated(' ', 0));
    while i < n
        invariant
            i <= n,
            out@ == before + repeated(' ', i as nat),
        decreases n - i,
    {
        out.push(' ');
        assert(out@ =~= before + repeated(' ', (i + 1) as nat));
        i = i + 1;
    }
}

proof fn line_end_bound(s: Seq<char>, i: int)
    requires
        0 <= i <= s.len(),
    ensures
        i <= line_end(s, i) <= s.len(),
    decreases s.len() - i,
{
    if i < s.len() && s[i] != '\n' {
        line_end_bound(s, i + 1);
    }
}

fn end_of_line(s: &Vec<char>, i: usize) -> (r: usize)
    requires
        i <= s.len(),
    ensures
        r == line_end(s@, i as int),
        i <= r <= s.len(),
{
    let mut k: usize = i;
    while k < s.len() && s[k] != '\n'
        invariant
            i <= k <= s.len(),
            line_end(s@, k as int) == line_end(s@, i as int),
        decreases s.len() - k,
    {
        k = k + 1;
    }
    k
}

fn push_line(out: &mut String, s: &Vec<char>, n: u32)
    ensures
        final(out)@ == old(out)@ + line_after(s@, 0, n as nat),
{
    let ghost before = out@;
    let mut i: usize = 0;
    let mut left: u32 = n;
    while left > 0
        invariant
            i <= s.len(),
            out@ == before,
            line_after(s@, i as int, left as nat) == line_after(s@, 0, n as nat),
        decreases left,
    {
        if i >= s.len() {
            assert(out@ =~= before + line_after(s@, 0, n as nat));
            return;
        }
        let end = end_of_line(s, i);
        if end >= s.len() {
            assert(line_after(s@, end + 1, (left - 1) as nat) =~= Seq::<char>::empty());
            assert(out@ =~= before + line_after(s@, 0, n as nat));
            return;
        }
        i = end + 1;
        left = left - 1;
    }
    if i >= s.len() {
        assert(out@ =~= before + line_after(s@, 0, n as nat));
        return;
    }
    let end = end_of_line(s, i);
    let stop: usize = if end < s.len() && i < end && s[end - 1] == '\r' {
        end - 1
    } else {
        end
    };
    let mut k: usize = i;
    assert(out@ =~= before + s@.subrange(i as int, i as int));
    while k < stop
        invariant
            i <= k <= stop <= s.len(),
            out@ == before + s@.subrange(i as int, k as int),
        decreases stop - k,
    {
        out.push(s[k]);
        assert(out@ =~= before + s@.subrange(i as int, k + 1));
        k = k + 1;
    }
}

/// An error message with the line that it is about:
///
/// ```text
/// error: <msg>
///   --> <filename>:<line>:<col>
///   |
/// 3 | let x = y +
///   |             ^
/// ```
///
/// A line past the end of the source is shown empty.
pub fn render_span(filename: &str, source: &str, span: Span, msg: &str) -> (r: String)
    ensures
        r@ == rendered(filename@, source@, span, msg@),
{
    let mut gutter = String::new();
    push_decimal(&mut gutter, span.start.line as u64 + 1);
    let digits = chars_of(gutter.as_str());
    assert(gutter@ =~= decimal((span.start.line + 1) as nat));
    let mut out = String::new();
    out.append("error: ");
    out.append(msg);
    out.append("\n");
    push_spaces(&mut out, digits.len());
    out.append(" --> ");
    out.append(filename);
    out.append(":");
    out.append(gutter.as_str());
    out.append(":");
    push_decimal(&mut out, span.start.col as u64 + 1);
    out.append("\n");
    push_spaces(&mut out, digits.len());
    out.append(" |\n");
    out.append(gutter.as_str());
    out.append(" | ");
    let chars = chars_of(source);
    push_line(&mut out, &chars, span.start.line);
    out.append("\n");
    push_spaces(&mut out, digits.len());
    out.append(" | ");
    push_repeated(&mut out, ' ', span.start.col);
    let carets: u32 = if span.end.line == span.start.line && span.end.col > span.start.col {
        span.end.col - span.start.col
    } else {
        1
    };
    push_repeated(&mut out, '^', carets);
    assert(out@ =~= rendered(filename@, source@, span, msg@));
    out
}

} // verus!
