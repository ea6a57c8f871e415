//! That an error message shows the line that it is about, with the marks under
//! the place.
use crate::diagnostics::{caret_count, line_after, line_end, rendered, repeated};
use crate::text::decimal;
use crate::tokens::Span;
use vstd::prelude::*;

verus! {

/// Lines as a text, each with a newline behind it.
pub open spec fn joined(lines: Seq<Seq<char>>) -> Seq<char>
    decreases lines.len(),
{
    if lines.len() == 0 {
        Seq::empty()
    } else {
        lines[0].push('\n') + joined(lines.skip(1))
    }
}

/// Whether the text is one line, and no carriage return ends it.
pub open spec fn one_line(s: Seq<char>) -> bool {
    !s.contains('\n') && (s.len() > 0 ==> s.last() != '\r')
}

proof fn a_line_ends(s: Seq<char>, i: int, end: int)
    requires
        0 <= i <= end < s.len(),
        s[end] == '\n',
        forall|k: int| i <= k < end ==> #[trigger] s[k] != '\n',
    ensures
        line_end(s, i) == end,
    decreases end - i,
{
    if i < end {
        assert(s[i] != '\n');
        a_line_ends(s, i + 1, end);
    }
}

proof fn a_line_is_found(s: Seq<char>, i: int, lines: Seq<Seq<char>>, n: nat)
    requires
        0 <= i <= s.len(),
        s.skip(i) == joined(lines),
        forall|k: int| 0 <= k < lines.len() ==> one_line(#[trigger] lines[k]),
    ensures
        n < lines.len() ==> line_after(s, i, n) == lines[n as int],
        n >= lines.len() ==> line_after(s, i, n).len() == 0,
    decreases n,
{
    if lines.len() == 0 {
        assert(s.skip(i).len() == s.len() - i);
    } else {
        let line = lines[0];
        let rest = lines.skip(1);
        let all = joined(lines);
        let end = i + line.len();
        assert(one_line(line));
        assert(s.skip(i).len() == s.len() - i);
        assert forall|k: int| 0 <= k < line.len() implies #[trigger] s[i + k] == line[k] by {
            assert(s.skip(i)[k] == all[k]);
        }
        assert(s[end] == '\n') by {
            assert(s.skip(i)[line.len() as int] == all[line.len() as int]);
        }
        assert forall|k: int| i <= k < end implies #[trigger] s[k] != '\n' by {
            assert(s[i + (k - i)] == line[k - i]);
            assert(line.contains(line[k - i]));
        }
        a_line_ends(s, i, end);
        if n == 0 {
            assert(s.subrange(i, end) =~= line);
            if line.len() > 0 {
                assert(s[i + (line.len() - 1)] == line.last());
            }
        } else {
            assert(s.skip(end + 1) =~= joined(rest)) by {
                assert forall|k: int| 0 <= k < joined(rest).len() implies #[trigger] s.skip(end + 1)[k] == joined(
                    rest,
                )[k] by {
                    assert(s.skip(i)[line.len() + 1 + k] == all[line.len() + 1 + k]);
                }
            }
            assert forall|k: int| 0 <= k < rest.len() implies one_line(#[trigger] rest[k]) by {
                assert(one_line(lines[k + 1]));
            }
            a_line_is_found(s, end + 1, rest, (n - 1) as nat);
        }
    }
}

/// Of a text of lines, line `n` is found by its number, counted from zero; past
/// the last there is nothing.
pub proof fn a_line_is_found_by_its_number(lines: Seq<Seq<char>>, n: nat)
    requires
        forall|k: int| 0 <= k < lines.len() ==> one_line(#[trigger] lines[k]),
    ensures
        n < lines.len() ==> line_after(joined(lines), 0, n) == lines[n as int],
        n >= lines.len() ==> line_after(joined(lines), 0, n).len() == 0,
{
    let s = joined(lines);
    assert(s.skip(0) =~= s);
    a_line_is_found(s, 0, lines, n);
}

/// A message ends with the line that it is about and, below it, as many spaces as
/// there are characters before the place, and then the marks. What stands before
/// the line and before the spaces is equally long, so that the marks are under the
/// place.
pub proof fn the_marks_are_under_the_place(
    filename: Seq<char>,
    lines: Seq<Seq<char>>,
    span: Span,
    msg: Seq<char>,
) -> (r: (Seq<char>, Seq<char>, Seq<char>))
    requires
        forall|k: int| 0 <= k < lines.len() ==> one_line(#[trigger] lines[k]),
        span.start.line < lines.len(),
    ensures
        ({
            let (before, left, below) = r;
            &&& rendered(filename, joined(lines), span, msg) == before + left + lines[span.start.line as int] + seq![
                '\n',
            ] + below + repeated(' ', span.start.col as nat) + repeated('^', caret_count(span))
            &&& left.len() == below.len()
            &&& before.len() > 0
            &&& before.last() == '\n'
        }),
{
    a_line_is_found_by_its_number(lines, span.start.line as nat);
    let line = lines[span.start.line as int];
    let gutter = decimal((span.start.line + 1) as nat);
    let pad = repeated(' ', gutter.len());
    reveal_strlit(" |\n");
    reveal_strlit(" | ");
    reveal_strlit("\n");
    assert("\n"@ =~= seq!['\n']);
    let before = "error: "@ + msg + "\n"@ + pad + " --> "@ + filename + ":"@ + gutter + ":"@ + decimal(
        (span.start.col + 1) as nat,
    ) + "\n"@ + pad + " |\n"@;
    let left = gutter + " | "@;
    let below = pad + " | "@;
    let marks = repeated(' ', span.start.col as nat);
    let carets = repeated('^', caret_count(span));
    assert(before.last() == " |\n"@[2]);
    assert(before + gutter + " | "@ =~= before + left);
    let so_far = before + left + line + "\n"@;
    assert(so_far + pad + " | "@ =~= so_far + below);
    (before, left, below)
}

} // verus!
