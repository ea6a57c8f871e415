use froglang_core::cli::{
    build_usage, output_name, parse_args, read_line, result_line, trim, unknown_command, unknown_subcommand, Command,
    Line,
};

fn args(words: &[&str]) -> Vec<String> {
    words.iter().map(|w| w.to_string()).collect()
}

#[test]
fn commands() {
    assert_eq!(parse_args(&args(&["frog", "run", "1 + 2"])), Command::Run("1 + 2".to_string()));
    assert_eq!(parse_args(&args(&["frog", "check", "a.frog"])), Command::Check("a.frog".to_string()));
    assert_eq!(
        parse_args(&args(&["frog", "build", "a.frog"])),
        Command::Build { input: "a.frog".to_string(), out: None }
    );
    assert_eq!(
        parse_args(&args(&["frog", "build", "a.frog", "-o", "b"])),
        Command::Build { input: "a.frog".to_string(), out: Some("b".to_string()) }
    );
    assert_eq!(parse_args(&args(&["frog", "build", "a.frog", "-x", "b"])), Command::BuildUsage);
    assert_eq!(parse_args(&args(&["frog", "build", "a.frog", "b"])), Command::BuildUsage);
    assert_eq!(parse_args(&args(&["frog", "fmt", "a"])), Command::Unknown("fmt".to_string()));
}

#[test]
fn what_is_no_command_opens_the_prompt() {
    assert_eq!(parse_args(&args(&["frog"])), Command::Repl);
    assert_eq!(parse_args(&args(&["frog", "--help"])), Command::Repl);
    assert_eq!(parse_args(&args(&["frog", "run"])), Command::Repl);
    assert_eq!(parse_args(&args(&["frog", "run", "a", "b"])), Command::Repl);
    assert_eq!(parse_args(&args(&["frog", "build"])), Command::Repl);
}

#[test]
fn where_a_program_is_written() {
    assert_eq!(output_name(Some("x".to_string()), Some("y".to_string())), "x");
    assert_eq!(output_name(None, Some("y".to_string())), "y");
    assert_eq!(output_name(None, None), "a.out");
}

#[test]
fn lines_of_the_prompt() {
    assert_eq!(read_line("  \t"), Line::Empty);
    assert_eq!(read_line(" :gc "), Line::DumpHeap);
    assert_eq!(read_line(":help"), Line::Help);
    assert_eq!(read_line(":quit"), Line::Unknown(":quit".to_string()));
    assert_eq!(read_line(" 1 + 2\n"), Line::Eval("1 + 2".to_string()));
}

#[test]
fn trimming_takes_all_spaces() {
    assert_eq!(trim("\u{2003} a b\u{a0}\n"), "a b");
    assert_eq!(trim(" "), "");
    assert_eq!(trim(&trim("  x ")), "x");
}

#[test]
fn answers() {
    assert_eq!(result_line("3", "Int"), "3 :: Int");
    assert_eq!(result_line("", "None"), ":: None");
    assert_eq!(unknown_command(":x"), "Unknown command ':x'. Try :help");
    assert_eq!(unknown_subcommand("fmt"), "Unknown subcommand 'fmt'. Usage: frog [check|run|build <expr|file>]");
    assert_eq!(build_usage(), "Usage: frog build <expr|file> [-o <out>]");
}
