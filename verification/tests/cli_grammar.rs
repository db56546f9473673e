use leviticus::args::ParseError;
use leviticus::cli::command::{parse as parse_short, Command as Short};
use leviticus::reg_command::{parse, Command};

fn args(xs: &[&str]) -> Vec<String> {
    xs.iter().map(|x| x.to_string()).collect()
}

#[test]
fn plain_subcommands() {
    let c = parse(&args(&["leviticus", "start"])).unwrap();
    assert!(!c.verbose);
    assert!(matches!(c.command, Command::Start));
    assert!(matches!(parse(&args(&["leviticus", "status"])).unwrap().command, Command::Status));
    assert!(matches!(parse(&args(&["leviticus", "explain"])).unwrap().command, Command::Explain));
    assert!(matches!(parse(&args(&["leviticus", "explain-doc"])).unwrap().command, Command::ExplainDoc));
    assert!(matches!(parse(&args(&["leviticus", "stop"])).unwrap().command, Command::Stop));
    assert!(matches!(parse(&args(&["leviticus", "reload"])).unwrap().command, Command::Reload));
    assert!(matches!(parse(&args(&["leviticus", "view-list"])).unwrap().command, Command::ViewList));
}

#[test]
fn named_subcommands() {
    match parse(&args(&["leviticus", "view", "rust-dev"])).unwrap().command {
        Command::View { name } => assert_eq!(name, "rust-dev"),
        other => panic!("unexpected {:?}", other),
    }
    match parse(&args(&["leviticus", "view-fork", "mine"])).unwrap().command {
        Command::ViewFork { name } => assert_eq!(name, "mine"),
        other => panic!("unexpected {:?}", other),
    }
    match parse(&args(&["leviticus", "deps", "-"])).unwrap().command {
        Command::Deps { name } => assert_eq!(name, "-"),
        other => panic!("unexpected {:?}", other),
    }
}

#[test]
fn verbose_flag_anywhere() {
    for line in [
        &["leviticus", "-v", "view", "x"][..],
        &["leviticus", "view", "--verbose", "x"][..],
        &["leviticus", "view", "x", "-v"][..],
    ] {
        let c = parse(&args(line)).unwrap();
        assert!(c.verbose);
        assert!(matches!(c.command, Command::View { ref name } if name == "x"));
    }
}

#[test]
fn refusals() {
    assert_eq!(parse(&args(&["leviticus"])).unwrap_err(), ParseError::MissingSubcommand);
    assert_eq!(parse(&args(&[])).unwrap_err(), ParseError::MissingSubcommand);
    assert_eq!(parse(&args(&["leviticus", "-v"])).unwrap_err(), ParseError::MissingSubcommand);
    assert_eq!(parse(&args(&["leviticus", "bogus"])).unwrap_err(), ParseError::UnknownSubcommand);
    assert_eq!(parse(&args(&["leviticus", "up"])).unwrap_err(), ParseError::UnknownSubcommand);
    assert_eq!(parse(&args(&["leviticus", "--help"])).unwrap_err(), ParseError::UnknownArgument);
    assert_eq!(parse(&args(&["leviticus", "start", "-x"])).unwrap_err(), ParseError::UnknownArgument);
    assert_eq!(parse(&args(&["leviticus", "-v", "start", "-v"])).unwrap_err(), ParseError::RepeatedFlag);
    assert_eq!(parse(&args(&["leviticus", "view"])).unwrap_err(), ParseError::MissingValue);
    assert_eq!(parse(&args(&["leviticus", "view", "a", "b"])).unwrap_err(), ParseError::UnexpectedValue);
    assert_eq!(parse(&args(&["leviticus", "start", "now"])).unwrap_err(), ParseError::UnexpectedValue);
    assert_eq!(parse(&args(&["leviticus", "bogus", "--what"])).unwrap_err(), ParseError::UnknownArgument);
}

#[test]
fn double_dash_ends_options() {
    match parse(&args(&["leviticus", "view", "--", "-x"])).unwrap() {
        c => {
            assert!(!c.verbose);
            assert!(matches!(c.command, Command::View { ref name } if name == "-x"));
        }
    }
    match parse(&args(&["leviticus", "-v", "view", "--", "-v"])).unwrap() {
        c => {
            assert!(c.verbose);
            assert!(matches!(c.command, Command::View { ref name } if name == "-v"));
        }
    }
    match parse(&args(&["leviticus", "view", "--", "--"])).unwrap() {
        c => assert!(matches!(c.command, Command::View { ref name } if name == "--")),
    }
    assert!(matches!(parse(&args(&["leviticus", "view", "x", "--"])).unwrap().command, Command::View { ref name } if name == "x"));
    assert!(matches!(parse(&args(&["leviticus", "start", "--"])).unwrap().command, Command::Start));
    assert_eq!(parse(&args(&["leviticus", "--", "start"])).unwrap_err(), ParseError::UnknownArgument);
    assert_eq!(parse(&args(&["leviticus", "start", "--", "x"])).unwrap_err(), ParseError::UnexpectedValue);
    assert_eq!(parse(&args(&["leviticus", "view", "--"])).unwrap_err(), ParseError::MissingValue);
    assert_eq!(parse(&args(&["leviticus", "view", "--", "a", "b"])).unwrap_err(), ParseError::UnexpectedValue);
    assert_eq!(parse(&args(&["leviticus", "view", "-x", "--", "a"])).unwrap_err(), ParseError::UnknownArgument);
    assert!(matches!(parse_short(&args(&["leviticus", "view-fork", "--", "-m"])).unwrap().command, Short::ViewFork { ref name } if name == "-m"));
}

#[test]
fn short_grammar_aliases() {
    assert!(matches!(parse_short(&args(&["leviticus", "up"])).unwrap().command, Short::Start));
    assert!(matches!(parse_short(&args(&["leviticus", "start"])).unwrap().command, Short::Start));
    assert!(matches!(parse_short(&args(&["leviticus", "st"])).unwrap().command, Short::Status));
    assert!(matches!(parse_short(&args(&["leviticus", "why"])).unwrap().command, Short::Explain));
    assert!(matches!(parse_short(&args(&["leviticus", "explain-doc"])).unwrap().command, Short::ExplainDoc));
    assert!(matches!(parse_short(&args(&["leviticus", "d"])).unwrap().command, Short::Deps));
    assert!(matches!(parse_short(&args(&["leviticus", "deps"])).unwrap().command, Short::Deps));
    assert!(matches!(parse_short(&args(&["leviticus", "-v", "view-list"])).unwrap().command, Short::ViewList));
    assert_eq!(parse_short(&args(&["leviticus", "deps", "x"])).unwrap_err(), ParseError::UnexpectedValue);
    match parse_short(&args(&["leviticus", "view-fork", "mine", "--verbose"])).unwrap() {
        c => {
            assert!(c.verbose);
            assert!(matches!(c.command, Short::ViewFork { ref name } if name == "mine"));
        }
    }
    assert_eq!(parse_short(&args(&["leviticus", "view"])).unwrap_err(), ParseError::MissingValue);
}
