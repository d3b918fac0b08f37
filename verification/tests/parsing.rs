//! The argument parser: commands, options, paths, and the early exits.

use ziped::cli::{Cli, OutputOption, ParseOutcome, Parser};
use ziped::cmd::Command;

fn args(list: &[&str]) -> Vec<String> {
    list.iter().map(|a| a.to_string()).collect()
}

fn parsed(list: &[&str]) -> Cli {
    match Parser::parse(args(list)) {
        ParseOutcome::Run(cli) => cli,
        _ => panic!("expected a runnable invocation"),
    }
}

#[test]
fn a_listing_invocation_parses_whole() {
    let cli = parsed(&["ziped", "ls", "--filter=*2.txt", "archive.zip"]);
    assert_eq!("ascii", cli.option.path_encoding);
    assert!(matches!(cli.option.output, OutputOption::Unspecified));
    assert_eq!(1, cli.commands.len());
    match &cli.commands[0] {
        Command::List(l) => assert_eq!("*2.txt", l.filter),
        _ => panic!("expected ls"),
    }
    assert_eq!(vec![String::from("archive.zip")], cli.paths);
}

#[test]
fn the_list_filter_defaults_to_star() {
    let cli = parsed(&["ziped", "ls", "a.zip"]);
    match &cli.commands[0] {
        Command::List(l) => assert_eq!("*", l.filter),
        _ => panic!("expected ls"),
    }
}

#[test]
fn remove_filters_accumulate_in_order() {
    let cli = parsed(&["ziped", "rm", "--filter=*.log", "--filter=tmp?", "a.zip", "b.zip"]);
    match &cli.commands[0] {
        Command::Remove(rm) => {
            assert_eq!(vec![String::from("*.log"), String::from("tmp?")], rm.filters)
        },
        _ => panic!("expected rm"),
    }
    assert_eq!(vec![String::from("a.zip"), String::from("b.zip")], cli.paths);
}

#[test]
fn global_options_take_the_value_after_the_equals_sign() {
    let cli = parsed(&["ziped", "-e=sjis", "ls", "a.zip"]);
    assert_eq!("sjis", cli.option.path_encoding);

    let cli = parsed(&["ziped", "--encoding=shift-jis", "ls", "a.zip"]);
    assert_eq!("shift-jis", cli.option.path_encoding);

    let cli = parsed(&["ziped", "--output=out.zip", "rm", "a.zip"]);
    match cli.option.output {
        OutputOption::Path(p) => assert_eq!("out.zip", p),
        _ => panic!("expected a path output"),
    }

    let cli = parsed(&["ziped", "--output-dir=dest", "rm", "a.zip"]);
    match cli.option.output {
        OutputOption::Dir(d) => assert_eq!("dest", d),
        _ => panic!("expected a directory output"),
    }

    let cli = parsed(&["ziped", "--overwrite", "rm", "a.zip"]);
    assert!(matches!(cli.option.output, OutputOption::Overwrite));
}

#[test]
fn too_few_arguments_ask_for_usage() {
    assert!(matches!(Parser::parse(args(&["ziped"])), ParseOutcome::ShowUsage));
    assert!(matches!(Parser::parse(args(&[])), ParseOutcome::ShowUsage));
}

#[test]
fn help_and_version_are_early_exits() {
    assert!(matches!(Parser::parse(args(&["ziped", "-h"])), ParseOutcome::ShowUsage));
    assert!(matches!(Parser::parse(args(&["ziped", "--help"])), ParseOutcome::ShowUsage));
    assert!(matches!(Parser::parse(args(&["ziped", "-v"])), ParseOutcome::ShowVersion));
    assert!(matches!(Parser::parse(args(&["ziped", "--version"])), ParseOutcome::ShowVersion));
    assert!(matches!(
        Parser::parse(args(&["ziped", "ls", "-h"])),
        ParseOutcome::ShowListUsage
    ));
    assert!(matches!(
        Parser::parse(args(&["ziped", "rm", "--help"])),
        ParseOutcome::ShowRemoveUsage
    ));
}

#[test]
fn unknown_arguments_are_reported_verbatim() {
    match Parser::parse(args(&["ziped", "--frobnicate", "a.zip"])) {
        ParseOutcome::Fail(m) => assert_eq!("Unknown option: --frobnicate", m),
        _ => panic!("expected a failure"),
    }
    match Parser::parse(args(&["ziped", "explode", "a.zip"])) {
        ParseOutcome::Fail(m) => assert_eq!("Unknown subcommand: explode", m),
        _ => panic!("expected a failure"),
    }
    match Parser::parse(args(&["ziped", "ls", "a.zip", "not-an-archive"])) {
        ParseOutcome::Fail(m) => assert_eq!("Unknown subcommand or option: not-an-archive", m),
        _ => panic!("expected a failure"),
    }
}

#[test]
fn arguments_after_the_first_path_are_all_paths() {
    // Once a `.zip` argument appears, option-looking arguments are paths
    // and must end in `.zip` themselves.
    match Parser::parse(args(&["ziped", "ls", "a.zip", "-e=sjis"])) {
        ParseOutcome::Fail(m) => assert_eq!("Unknown subcommand or option: -e=sjis", m),
        _ => panic!("expected a failure"),
    }
}

#[test]
fn subcommands_may_repeat_and_options_interleave() {
    let cli = parsed(&["ziped", "ls", "--filter=*.txt", "-e=sjis", "rm", "--filter=*.log", "a.zip"]);
    assert_eq!("sjis", cli.option.path_encoding);
    assert_eq!(2, cli.commands.len());
    match &cli.commands[0] {
        Command::List(l) => assert_eq!("*.txt", l.filter),
        _ => panic!("expected ls first"),
    }
    match &cli.commands[1] {
        Command::Remove(rm) => assert_eq!(vec![String::from("*.log")], rm.filters),
        _ => panic!("expected rm second"),
    }
}
