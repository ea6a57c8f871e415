//! The command line and the interactive prompt: what a line asks for, and what
//! is answered.
use crate::lexer::{is_space, space};
use crate::text::{chars_of, owned, same_text, string_of, texts};
use vstd::prelude::*;
use vstd::string::StringExecFns;

verus! {

// ── The command line ─────────────────────────────────────────────────────

/// What the command line asks for.
#[derive(Debug, PartialEq)]
pub enum Command {
    /// Run an expression or a file.
    Run(String),
    /// Check an expression or a file.
    Check(String),
    /// Compile an expression or a file, and where to write the program.
    Build { input: String, out: Option<String> },
    /// `build` with arguments that it does not take.
    BuildUsage,
    /// Something that is no command.
    Unknown(String),
    /// Lines from the prompt.
    Repl,
}

pub ghost enum CommandView {
    Run(Seq<char>),
    Check(Seq<char>),
    Build(Seq<char>, Option<Seq<char>>),
    BuildUsage,
    Unknown(Seq<char>),
    Repl,
}

impl View for Command {
    type V = CommandView;

    open spec fn view(&self) -> CommandView {
        match *self {
            Command::Run(s) => CommandView::Run(s@),
            Command::Check(s) => CommandView::Check(s@),
            Command::Build { input, out } => CommandView::Build(
                input@,
                match out {
                    Some(o) => Some(o@),
                    None => None,
                },
            ),
            Command::BuildUsage => CommandView::BuildUsage,
            Command::Unknown(s) => CommandView::Unknown(s@),
            Command::Repl => CommandView::Repl,
        }
    }
}

/// What arguments ask for. The first is the name of the program.
pub open spec fn command_of(args: Seq<Seq<char>>) -> CommandView {
    if args.len() == 3 && args[1] == "run"@ {
        CommandView::Run(args[2])
    } else if args.len() == 3 && args[1] == "check"@ {
        CommandView::Check(args[2])
    } else if args.len() >= 3 && args[1] == "build"@ {
        if args.len() == 5 && args[3] == "-o"@ {
            CommandView::Build(args[2], Some(args[4]))
        } else if args.len() == 3 {
            CommandView::Build(args[2], None)
        } else {
            CommandView::BuildUsage
        }
    } else if args.len() >= 2 && !(args[1].len() > 0 && args[1][0] == '-') && args[1] != "check"@ && args[1] != "run"@
        && args[1] != "build"@ {
        CommandView::Unknown(args[1])
    } else {
        CommandView::Repl
    }
}

fn starts_with(s: &str, c: char) -> (r: bool)
    ensures
        r == (s@.len() > 0 && s@[0] == c),
{
    let cs = chars_of(s);
    cs.len() > 0 && cs[0] == c
}

/// What the arguments of the program ask for.
pub fn parse_args(args: &Vec<String>) -> (r: Command)
    ensures
        r@ == command_of(texts(args@)),
{
    let n: usize = args.len();
    if n < 2 {
        return Command::Repl;
    }
    let word = args[1].as_str();
    assert(texts(args@)[1] == word@);
    let run = same_text(word, "run");
    let check = same_text(word, "check");
    let build = same_text(word, "build");
    if n == 3 && run {
        return Command::Run(owned(args[2].as_str()));
    }
    if n == 3 && check {
        return Command::Check(owned(args[2].as_str()));
    }
    if n >= 3 && build {
        let input = owned(args[2].as_str());
        return if n == 5 && same_text(args[3].as_str(), "-o") {
            Command::Build { input, out: Some(owned(args[4].as_str())) }
        } else if n == 3 {
            Command::Build { input, out: None }
        } else {
            Command::BuildUsage
        };
    }
    if !starts_with(word, '-') && !check && !run && !build {
        return Command::Unknown(owned(word));
    }
    Command::Repl
}

/// Where a compiled program is written: where it was asked to be, or else
/// under the name of its file without the ending.
pub open spec fn output_of(out: Option<Seq<char>>, stem: Option<Seq<char>>) -> Seq<char> {
    match out {
        Some(o) => o,
        None => match stem {
            Some(s) => s,
            None => "a.out"@,
        },
    }
}

/// Where a compiled program is written. `stem` is the name of its file
/// without the ending, if it comes from one.
pub fn output_name(out: Option<String>, stem: Option<String>) -> (r: String)
    ensures
        r@ == output_of(
            match out {
                Some(o) => Some(o@),
                None => None,
            },
            match stem {
                Some(s) => Some(s@),
                None => None,
            },
        ),
{
    match out {
        Some(o) => o,
        None => match stem {
            Some(s) => s,
            None => owned("a.out"),
        },
    }
}

/// What is said of something that is no command.
pub fn unknown_subcommand(word: &str) -> (r: String)
    ensures
        r@ == "Unknown subcommand '"@ + word@ + "'. Usage: frog [check|run|build <expr|file>]"@,
{
    let mut out = owned("Unknown subcommand '");
    out.append(word);
    out.append("'. Usage: frog [check|run|build <expr|file>]");
    out
}

/// What is said of wrong arguments of `build`.
pub fn build_usage() -> (r: String)
    ensures
        r@ == "Usage: frog build <expr|file> [-o <out>]"@,
{
    owned("Usage: frog build <expr|file> [-o <out>]")
}

// ── The prompt ───────────────────────────────────────────────────────────

/// How many spaces text starts with, from `i` on.
pub open spec fn leading(s: Seq<char>, i: int) -> int
    decreases s.len() - i,
{
    if 0 <= i < s.len() && space(s[i]) {
        leading(s, i + 1)
    } else {
        i
    }
}

/// Where the spaces that text ends with begin, at or after `from`.
pub open spec fn trailing(s: Seq<char>, from: int, i: int) -> int
    decreases i,
{
    if 0 <= from < i <= s.len() && space(s[i - 1]) {
        trailing(s, from, i - 1)
    } else {
        i
    }
}

/// Text without the spaces around it.
pub open spec fn trimmed(s: Seq<char>) -> Seq<char> {
    let from = leading(s, 0);
    s.subrange(from, trailing(s, from, s.len() as int))
}

/// Text without the spaces around it.
pub fn trim(s: &str) -> (r: String)
    ensures
        r@ == trimmed(s@),
{
    let cs = chars_of(s);
    let mut from: usize = 0;
    while from < cs.len() && is_space(cs[from])
        invariant
            from <= cs.len(),
            leading(cs@, from as int) == leading(cs@, 0),
        decreases cs.len() - from,
    {
        from = from + 1;
    }
    let mut to: usize = cs.len();
    while from < to && is_space(cs[to - 1])
        invariant
            from <= to <= cs.len(),
            trailing(cs@, from as int, to as int) == trailing(cs@, from as int, cs.len() as int),
        decreases to,
    {
        to = to - 1;
    }
    string_of(&cs, from, to)
}

/// What a line at the prompt asks for.
#[derive(Debug, PartialEq)]
pub enum Line {
    Empty,
    /// `:gc`.
    DumpHeap,
    /// `:help`.
    Help,
    /// A command that there is not.
    Unknown(String),
    /// A program.
    Eval(String),
}

pub ghost enum LineView {
    Empty,
    DumpHeap,
    Help,
    Unknown(Seq<char>),
    Eval(Seq<char>),
}

impl View for Line {
    type V = LineView;

    open spec fn view(&self) -> LineView {
        match *self {
            Line::Empty => LineView::Empty,
            Line::DumpHeap => LineView::DumpHeap,
            Line::Help => LineView::Help,
            Line::Unknown(s) => LineView::Unknown(s@),
            Line::Eval(s) => LineView::Eval(s@),
        }
    }
}

/// What a line at the prompt asks for.
pub open spec fn line_of(s: Seq<char>) -> LineView {
    let t = trimmed(s);
    if t.len() == 0 {
        LineView::Empty
    } else if t == ":gc"@ {
        LineView::DumpHeap
    } else if t == ":help"@ {
        LineView::Help
    } else if t[0] == ':' {
        LineView::Unknown(t)
    } else {
        LineView::Eval(t)
    }
}

/// What a line at the prompt asks for.
pub fn read_line(s: &str) -> (r: Line)
    ensures
        r@ == line_of(s@),
{
    let t = trim(s);
    let empty = same_text(t.as_str(), "");
    proof {
        reveal_strlit("");
        reveal_strlit(":gc");
        reveal_strlit(":help");
        assert(t@.len() == 0 ==> t@ =~= ""@);
    }
    if empty {
        Line::Empty
    } else if same_text(t.as_str(), ":gc") {
        Line::DumpHeap
    } else if same_text(t.as_str(), ":help") {
        Line::Help
    } else if starts_with(t.as_str(), ':') {
        Line::Unknown(t)
    } else {
        Line::Eval(t)
    }
}

/// What is said of a command that there is not.
pub fn unknown_command(word: &str) -> (r: String)
    ensures
        r@ == "Unknown command '"@ + word@ + "'. Try :help"@,
{
    let mut out = owned("Unknown command '");
    out.append(word);
    out.append("'. Try :help");
    out
}

/// How a value and its type are shown. A value that has no text of its own is
/// left out.
pub open spec fn shown_result(value: Seq<char>, ty: Seq<char>) -> Seq<char> {
    if value.len() == 0 {
        ":: "@ + ty
    } else {
        value + " :: "@ + ty
    }
}

/// How a value and its type are shown.
pub fn result_line(value: &str, ty: &str) -> (r: String)
    ensures
        r@ == shown_result(value@, ty@),
{
    let empty = same_text(value, "");
    proof {
        reveal_strlit("");
        assert(value@.len() == 0 ==> value@ =~= ""@);
    }
    if empty {
        let mut out = owned(":: ");
        out.append(ty);
        out
    } else {
        let mut out = owned(value);
        out.append(" :: ");
        out.append(ty);
        out
    }
}

// ── Laws ─────────────────────────────────────────────────────────────────

proof fn leading_stops(s: Seq<char>, i: int)
    requires
        0 <= i <= s.len(),
    ensures
        i <= leading(s, i) <= s.len(),
        leading(s, i) < s.len() ==> !space(s[leading(s, i)]),
    decreases s.len() - i,
{
    if i < s.len() && space(s[i]) {
        leading_stops(s, i + 1);
    }
}

proof fn trailing_stops(s: Seq<char>, from: int, i: int)
    requires
        0 <= from <= i <= s.len(),
    ensures
        from <= trailing(s, from, i) <= i,
        from < trailing(s, from, i) ==> !space(s[trailing(s, from, i) - 1]),
    decreases i,
{
    if from < i && space(s[i - 1]) {
        trailing_stops(s, from, i - 1);
    }
}

/// What is left of a line neither starts nor ends with a space, so that
/// nothing is left to take away.
pub proof fn trimming_is_final(s: Seq<char>)
    ensures
        trimmed(trimmed(s)) == trimmed(s),
{
    let from = leading(s, 0);
    leading_stops(s, 0);
    trailing_stops(s, from, s.len() as int);
    let t = trimmed(s);
    if t.len() > 0 {
        assert(t[0] == s[from]);
        assert(t[t.len() - 1] == s[trailing(s, from, s.len() as int) - 1]);
        assert(leading(t, 0) == 0);
        assert(trailing(t, 0, t.len() as int) == t.len());
    } else {
        assert(leading(t, 0) == 0);
        assert(trailing(t, 0, 0) == 0);
    }
    assert(t.subrange(0, t.len() as int) =~= t);
}

} // verus!
