//! The command line of one invocation: global options, and the parser
//! that turns an argument vector into commands, paths and options.
//!
//! Global options may stand anywhere before the first archive path, each
//! subcommand consumes its own options from the arguments that follow it,
//! the first argument ending in `.zip` starts the path list, and every
//! path must end in `.zip`.  Requests to
//! print usage or version text, and rejected arguments, are returned as
//! outcomes rather than acted on: the engine decides, its caller prints
//! and exits.

use vstd::prelude::*;

use crate::cmd::Command;
use crate::list::List;
use crate::remove::Remove;
use crate::text::{after_last, ends_with, starts_with, str_ends_with, str_eq, str_starts_with, value_after_eq};

verus! {

/// Where the rewritten archive goes.
pub enum OutputOption {
    /// No output option was given; a rewrite cannot proceed.
    Unspecified,
    /// Write to a brand-new file at this path.
    Path(String),
    /// Write into this directory, under the source archive's base name.
    Dir(String),
    /// Replace the source archive in place, atomically.
    Overwrite,
}

/// Options that apply to every command of one invocation.
pub struct GlobalOption {
    /// The label of the fallback encoding for entry names.
    pub path_encoding: String,
    /// The destination policy for rewrites.
    pub output: OutputOption,
}

impl Default for GlobalOption {
    /// The defaults: the legacy-safe "ascii" fallback and no output.
    fn default() -> (r: GlobalOption)
        ensures
            r.path_encoding@ == "ascii"@,
            r.output is Unspecified,
    {
        GlobalOption { path_encoding: "ascii".to_owned(), output: OutputOption::Unspecified }
    }
}

/// A fully parsed invocation: options, subcommands, archive paths.
pub struct Cli {
    /// The global options.
    pub option: GlobalOption,
    /// The subcommands, in the order they were given.
    pub commands: Vec<Command>,
    /// The archive paths, each ending in `.zip`.
    pub paths: Vec<String>,
}

/// What parsing an argument vector asks the caller to do.
pub enum ParseOutcome {
    /// Run these commands over these paths.
    Run(Cli),
    /// Print the global usage text and exit successfully.
    ShowUsage,
    /// Print the version line and exit successfully.
    ShowVersion,
    /// Print the `ls` usage text and exit successfully.
    ShowListUsage,
    /// Print the `rm` usage text and exit successfully.
    ShowRemoveUsage,
    /// Report this message on standard error and exit with failure.
    Fail(String),
}

// ------------------------------------------------------------------
// The model: what each argument vector means.
// ------------------------------------------------------------------

/// The views of a sequence of strings.
pub open spec fn seq_views(args: Seq<String>) -> Seq<Seq<char>> {
    args.map_values(|a: String| a@)
}

/// The model of an output option.
pub enum OutputChoice {
    Unset,
    ToPath(Seq<char>),
    ToDir(Seq<char>),
    InPlace,
}

/// The model of `OutputOption`.
pub open spec fn output_model(o: OutputOption) -> OutputChoice {
    match o {
        OutputOption::Unspecified => OutputChoice::Unset,
        OutputOption::Path(p) => OutputChoice::ToPath(p@),
        OutputOption::Dir(d) => OutputChoice::ToDir(d@),
        OutputOption::Overwrite => OutputChoice::InPlace,
    }
}

/// The model of one subcommand.
pub enum CommandModel {
    ListOf { filter: Seq<char> },
    RemoveOf { filters: Seq<Seq<char>> },
}

/// The model of `Command`.
pub open spec fn command_model(c: Command) -> CommandModel {
    match c {
        Command::List(l) => CommandModel::ListOf { filter: l.filter@ },
        Command::Remove(rm) => CommandModel::RemoveOf { filters: rm.filters.deep_view() },
    }
}

/// The models of a sequence of subcommands.
pub open spec fn commands_model(cs: Seq<Command>) -> Seq<CommandModel> {
    cs.map_values(|c: Command| command_model(c))
}

/// The meaning of one argument vector.
pub enum ParseModel {
    Run {
        encoding: Seq<char>,
        output: OutputChoice,
        commands: Seq<CommandModel>,
        paths: Seq<Seq<char>>,
    },
    Usage,
    Version,
    ListUsage,
    RemoveUsage,
    Fail { message: Seq<char> },
}

/// The model of a `ParseOutcome`.
pub open spec fn outcome_model(r: ParseOutcome) -> ParseModel {
    match r {
        ParseOutcome::Run(cli) => ParseModel::Run {
            encoding: cli.option.path_encoding@,
            output: output_model(cli.option.output),
            commands: commands_model(cli.commands@),
            paths: seq_views(cli.paths@),
        },
        ParseOutcome::ShowUsage => ParseModel::Usage,
        ParseOutcome::ShowVersion => ParseModel::Version,
        ParseOutcome::ShowListUsage => ParseModel::ListUsage,
        ParseOutcome::ShowRemoveUsage => ParseModel::RemoveUsage,
        ParseOutcome::Fail(m) => ParseModel::Fail { message: m@ },
    }
}

/// What one global option argument asks for.
pub enum GlobalStep {
    UsageStep,
    VersionStep,
    SetEncoding(Seq<char>),
    SetOutputPath(Seq<char>),
    SetOutputDir(Seq<char>),
    SetOverwrite,
    UnknownOption,
}

/// The meaning of one argument that begins with `-`: the option value is
/// whatever follows the argument's last `=`.
pub open spec fn spec_global_option(a: Seq<char>) -> GlobalStep {
    if a == "-h"@ || a == "--help"@ {
        GlobalStep::UsageStep
    } else if a == "-v"@ || a == "--version"@ {
        GlobalStep::VersionStep
    } else if starts_with(a, "-e="@) || starts_with(a, "--encoding="@) {
        GlobalStep::SetEncoding(after_last(a, '='))
    } else if starts_with(a, "-o="@) || starts_with(a, "--output="@) {
        GlobalStep::SetOutputPath(after_last(a, '='))
    } else if starts_with(a, "--output-dir="@) {
        GlobalStep::SetOutputDir(after_last(a, '='))
    } else if a == "--overwrite"@ {
        GlobalStep::SetOverwrite
    } else {
        GlobalStep::UnknownOption
    }
}

/// How parsing the options of `ls` ends.
pub enum ListParseModel {
    /// The filter that stands, and the arguments left unconsumed.
    ListDone { filter: Seq<char>, rest: Seq<Seq<char>> },
    /// `-h` or `--help` was given.
    ListHelp,
}

/// The meaning of the arguments that follow `ls`: `--filter=` arguments
/// replace the filter (the last stands), `-h` asks for usage, and the
/// first other argument ends the subcommand.
pub open spec fn spec_parse_list(args: Seq<Seq<char>>, filter: Seq<char>) -> ListParseModel
    decreases args.len(),
{
    if args.len() == 0 {
        ListParseModel::ListDone { filter, rest: args }
    } else if args[0] == "-h"@ || args[0] == "--help"@ {
        ListParseModel::ListHelp
    } else if starts_with(args[0], "--filter="@) {
        spec_parse_list(args.skip(1), after_last(args[0], '='))
    } else {
        ListParseModel::ListDone { filter, rest: args }
    }
}

/// How parsing the options of `rm` ends.
pub enum RemoveParseModel {
    /// The accumulated filters, and the arguments left unconsumed.
    RemoveDone { filters: Seq<Seq<char>>, rest: Seq<Seq<char>> },
    /// `-h` or `--help` was given.
    RemoveHelp,
}

/// The meaning of the arguments that follow `rm`: each `--filter=`
/// argument appends one removal filter, `-h` asks for usage, and the
/// first other argument ends the subcommand.
pub open spec fn spec_parse_remove(args: Seq<Seq<char>>, filters: Seq<Seq<char>>) -> RemoveParseModel
    decreases args.len(),
{
    if args.len() == 0 {
        RemoveParseModel::RemoveDone { filters, rest: args }
    } else if args[0] == "-h"@ || args[0] == "--help"@ {
        RemoveParseModel::RemoveHelp
    } else if starts_with(args[0], "--filter="@) {
        spec_parse_remove(args.skip(1), filters.push(after_last(args[0], '=')))
    } else {
        RemoveParseModel::RemoveDone { filters, rest: args }
    }
}

/// Where the parser stands: between arguments, or inside one
/// subcommand's options.
pub enum ParseMode {
    Top,
    InList { filter: Seq<char> },
    InRemove { filters: Seq<Seq<char>> },
}

/// An ordering measure: subcommand modes step down to `Top` without
/// consuming an argument.
pub open spec fn mode_rank(m: ParseMode) -> int {
    if m is Top {
        0
    } else {
        1
    }
}

/// Whether every path ends in `.zip`.
pub open spec fn all_paths_ok(paths: Seq<Seq<char>>) -> bool {
    forall|i: int| 0 <= i < paths.len() ==> ends_with(#[trigger] paths[i], ".zip"@)
}

/// The first path that does not end in `.zip`.
pub open spec fn first_bad_path(paths: Seq<Seq<char>>) -> Seq<char>
    decreases paths.len(),
{
    if paths.len() == 0 {
        Seq::empty()
    } else if !ends_with(paths[0], ".zip"@) {
        paths[0]
    } else {
        first_bad_path(paths.skip(1))
    }
}

/// The end of parsing: the remaining arguments are the paths, and each
/// must end in `.zip`.
pub open spec fn spec_finish(
    enc: Seq<char>,
    out: OutputChoice,
    commands: Seq<CommandModel>,
    paths: Seq<Seq<char>>,
) -> ParseModel {
    if all_paths_ok(paths) {
        ParseModel::Run { encoding: enc, output: out, commands, paths }
    } else {
        ParseModel::Fail { message: "Unknown subcommand or option: "@ + first_bad_path(paths) }
    }
}

/// The meaning of the arguments after the program name, one argument (or
/// one mode step) at a time.
pub open spec fn spec_parse_step(
    args: Seq<Seq<char>>,
    mode: ParseMode,
    enc: Seq<char>,
    out: OutputChoice,
    commands: Seq<CommandModel>,
) -> ParseModel
    decreases args.len(), mode_rank(mode),
{
    match mode {
        ParseMode::InList { filter } => {
            if args.len() == 0 {
                spec_parse_step(
                    args,
                    ParseMode::Top,
                    enc,
                    out,
                    commands.push(CommandModel::ListOf { filter }),
                )
            } else if args[0] == "-h"@ || args[0] == "--help"@ {
                ParseModel::ListUsage
            } else if starts_with(args[0], "--filter="@) {
                spec_parse_step(
                    args.skip(1),
                    ParseMode::InList { filter: after_last(args[0], '=') },
                    enc,
                    out,
                    commands,
                )
            } else {
                spec_parse_step(
                    args,
                    ParseMode::Top,
                    enc,
                    out,
                    commands.push(CommandModel::ListOf { filter }),
                )
            }
        },
        ParseMode::InRemove { filters } => {
            if args.len() == 0 {
                spec_parse_step(
                    args,
                    ParseMode::Top,
                    enc,
                    out,
                    commands.push(CommandModel::RemoveOf { filters }),
                )
            } else if args[0] == "-h"@ || args[0] == "--help"@ {
                ParseModel::RemoveUsage
            } else if starts_with(args[0], "--filter="@) {
                spec_parse_step(
                    args.skip(1),
                    ParseMode::InRemove { filters: filters.push(after_last(args[0], '=')) },
                    enc,
                    out,
                    commands,
                )
            } else {
                spec_parse_step(
                    args,
                    ParseMode::Top,
                    enc,
                    out,
                    commands.push(CommandModel::RemoveOf { filters }),
                )
            }
        },
        ParseMode::Top => {
            if args.len() == 0 {
                spec_finish(enc, out, commands, Seq::empty())
            } else if args[0] == "ls"@ {
                spec_parse_step(args.skip(1), ParseMode::InList { filter: "*"@ }, enc, out, commands)
            } else if args[0] == "rm"@ {
                spec_parse_step(
                    args.skip(1),
                    ParseMode::InRemove { filters: Seq::empty() },
                    enc,
                    out,
                    commands,
                )
            } else if starts_with(args[0], "-"@) {
                match spec_global_option(args[0]) {
                    GlobalStep::UsageStep => ParseModel::Usage,
                    GlobalStep::VersionStep => ParseModel::Version,
                    GlobalStep::SetEncoding(v) => spec_parse_step(args.skip(1), mode, v, out, commands),
                    GlobalStep::SetOutputPath(v) => spec_parse_step(
                        args.skip(1),
                        mode,
                        enc,
                        OutputChoice::ToPath(v),
                        commands,
                    ),
                    GlobalStep::SetOutputDir(v) => spec_parse_step(
                        args.skip(1),
                        mode,
                        enc,
                        OutputChoice::ToDir(v),
                        commands,
                    ),
                    GlobalStep::SetOverwrite => spec_parse_step(
                        args.skip(1),
                        mode,
                        enc,
                        OutputChoice::InPlace,
                        commands,
                    ),
                    GlobalStep::UnknownOption => ParseModel::Fail {
                        message: "Unknown option: "@ + args[0],
                    },
                }
            } else if ends_with(args[0], ".zip"@) {
                spec_finish(enc, out, commands, args)
            } else {
                ParseModel::Fail { message: "Unknown subcommand: "@ + args[0] }
            }
        },
    }
}

/// The meaning of one full argument vector, program name included: fewer
/// than two arguments ask for the usage text.
pub open spec fn spec_parse_cli(args: Seq<Seq<char>>) -> ParseModel {
    if args.len() < 2 {
        ParseModel::Usage
    } else {
        spec_parse_step(args.skip(1), ParseMode::Top, "ascii"@, OutputChoice::Unset, Seq::empty())
    }
}

/// Parsing in `ls` mode agrees with `spec_parse_list` followed by a
/// return to `Top` with the finished command appended.
pub proof fn lemma_list_mode(
    args: Seq<Seq<char>>,
    filter: Seq<char>,
    enc: Seq<char>,
    out: OutputChoice,
    commands: Seq<CommandModel>,
)
    ensures
        spec_parse_step(args, ParseMode::InList { filter }, enc, out, commands) == (
        match spec_parse_list(args, filter) {
            ListParseModel::ListDone { filter: f, rest } => spec_parse_step(
                rest,
                ParseMode::Top,
                enc,
                out,
                commands.push(CommandModel::ListOf { filter: f }),
            ),
            ListParseModel::ListHelp => ParseModel::ListUsage,
        }),
    decreases args.len(),
{
    if args.len() == 0 {
    } else if args[0] == "-h"@ || args[0] == "--help"@ {
    } else if starts_with(args[0], "--filter="@) {
        lemma_list_mode(args.skip(1), after_last(args[0], '='), enc, out, commands);
    } else {
    }
}

/// Parsing in `rm` mode agrees with `spec_parse_remove` followed by a
/// return to `Top` with the finished command appended.
pub proof fn lemma_remove_mode(
    args: Seq<Seq<char>>,
    filters: Seq<Seq<char>>,
    enc: Seq<char>,
    out: OutputChoice,
    commands: Seq<CommandModel>,
)
    ensures
        spec_parse_step(args, ParseMode::InRemove { filters }, enc, out, commands) == (
        match spec_parse_remove(args, filters) {
            RemoveParseModel::RemoveDone { filters: fs, rest } => spec_parse_step(
                rest,
                ParseMode::Top,
                enc,
                out,
                commands.push(CommandModel::RemoveOf { filters: fs }),
            ),
            RemoveParseModel::RemoveHelp => ParseModel::RemoveUsage,
        }),
    decreases args.len(),
{
    if args.len() == 0 {
    } else if args[0] == "-h"@ || args[0] == "--help"@ {
    } else if starts_with(args[0], "--filter="@) {
        lemma_remove_mode(args.skip(1), filters.push(after_last(args[0], '=')), enc, out, commands);
    } else {
    }
}

/// The arguments a `ls` parse leaves unconsumed are a tail of its input.
pub proof fn lemma_list_rest_len(args: Seq<Seq<char>>, filter: Seq<char>)
    ensures
        spec_parse_list(args, filter) matches ListParseModel::ListDone { filter: f, rest }
            ==> rest.len() <= args.len(),
    decreases args.len(),
{
    if args.len() == 0 {
    } else if args[0] == "-h"@ || args[0] == "--help"@ {
    } else if starts_with(args[0], "--filter="@) {
        lemma_list_rest_len(args.skip(1), after_last(args[0], '='));
    } else {
    }
}

/// The arguments a `rm` parse leaves unconsumed are a tail of its input.
pub proof fn lemma_remove_rest_len(args: Seq<Seq<char>>, filters: Seq<Seq<char>>)
    ensures
        spec_parse_remove(args, filters) matches RemoveParseModel::RemoveDone { filters: fs, rest }
            ==> rest.len() <= args.len(),
    decreases args.len(),
{
    if args.len() == 0 {
    } else if args[0] == "-h"@ || args[0] == "--help"@ {
    } else if starts_with(args[0], "--filter="@) {
        lemma_remove_rest_len(args.skip(1), filters.push(after_last(args[0], '=')));
    } else {
    }
}

/// `first_bad_path` picks the earliest offender.
pub proof fn lemma_first_bad(paths: Seq<Seq<char>>, i: int)
    requires
        0 <= i < paths.len(),
        !ends_with(paths[i], ".zip"@),
        forall|j: int| 0 <= j < i ==> ends_with(#[trigger] paths[j], ".zip"@),
    ensures
        first_bad_path(paths) == paths[i],
    decreases i,
{
    if i > 0 {
        lemma_first_bad(paths.skip(1), i - 1);
    }
}

// ------------------------------------------------------------------
// The parser.
// ------------------------------------------------------------------

/// The argument parser: global options and subcommands until the first
/// archive path, then the path list.
pub struct Parser {
    opt: GlobalOption,
    args: std::collections::VecDeque<String>,
}

impl Parser {
    /// Parses one full argument vector, program name included.
    pub fn parse(args: Vec<String>) -> (r: ParseOutcome)
        ensures
            outcome_model(r) == spec_parse_cli(seq_views(args@)),
    {
        if args.len() < 2 {
            return ParseOutcome::ShowUsage;
        }
        let mut queue: std::collections::VecDeque<String> = std::collections::VecDeque::new();
        let n = args.len();
        let mut i: usize = 0;
        while i < n
            invariant
                i <= n,
                n == args@.len(),
                seq_views(queue@) == seq_views(args@).take(i as int),
            decreases n - i,
        {
            let ghost qb = queue@;
            let element = args[i].clone();
            proof {
                assert(element == args@[i as int]);
            }
            queue.push_back(element);
            proof {
                assert(queue@ == qb.push(args@[i as int]));
                assert(seq_views(qb).len() == qb.len());
                assert(qb.len() == i);
                assert forall|j: int| 0 <= j < i implies qb[j]@ == args@[j]@ by {
                    assert(seq_views(qb)[j] == seq_views(args@).take(i as int)[j]);
                    assert(seq_views(qb)[j] == qb[j]@);
                    assert(seq_views(args@).take(i as int)[j] == args@.take(i as int)[j]@);
                    assert(args@.take(i as int)[j] == args@[j]);
                }
                assert(seq_views(queue@) =~~= seq_views(args@).take(i + 1));
            }
            i = i + 1;
        }
        proof {
            assert(seq_views(args@).take(n as int) =~= seq_views(args@));
        }
        let mut parser = Parser { opt: GlobalOption::default(), args: queue };
        // The first argument is the program's own name.
        let _ = parser.args.pop_front();
        proof {
            assert(seq_views(parser.args@) =~= seq_views(args@).skip(1));
        }
        parser.parse_()
    }

    /// Parses the arguments after the program name.
    fn parse_(&mut self) -> (r: ParseOutcome)
        ensures
            outcome_model(r) == spec_parse_step(
                seq_views(old(self).args@),
                ParseMode::Top,
                old(self).opt.path_encoding@,
                output_model(old(self).opt.output),
                Seq::<CommandModel>::empty(),
            ),
    {
        let ghost target = spec_parse_step(
            seq_views(self.args@),
            ParseMode::Top,
            self.opt.path_encoding@,
            output_model(self.opt.output),
            Seq::<CommandModel>::empty(),
        );
        let mut commands: Vec<Command> = Vec::new();
        proof {
            assert(commands_model(commands@) =~= Seq::<CommandModel>::empty());
        }
        loop
            invariant
                target == spec_parse_step(
                    seq_views(old(self).args@),
                    ParseMode::Top,
                    old(self).opt.path_encoding@,
                    output_model(old(self).opt.output),
                    Seq::<CommandModel>::empty(),
                ),
                target == spec_parse_step(
                    seq_views(self.args@),
                    ParseMode::Top,
                    self.opt.path_encoding@,
                    output_model(self.opt.output),
                    commands_model(commands@),
                ),
            ensures
                target == spec_finish(
                    self.opt.path_encoding@,
                    output_model(self.opt.output),
                    commands_model(commands@),
                    seq_views(self.args@),
                ),
            decreases self.args@.len(),
        {
            let ghost args_entry = seq_views(self.args@);
            let popped = self.args.pop_front();
            match popped {
                None => {
                    proof {
                        assert(seq_views(self.args@) =~= Seq::<Seq<char>>::empty());
                    }
                    break;
                },
                Some(arg) => {
                    proof {
                        assert(args_entry[0] == arg@);
                        assert(seq_views(self.args@) =~= args_entry.skip(1));
                    }
                    if str_eq(arg.as_str(), "ls") {
                        let ghost cm = commands_model(commands@);
                        let ghost sub_entry = seq_views(self.args@);
                        match List::parse(&mut self.args) {
                            Some(c) => {
                                proof {
                                    lemma_list_rest_len(sub_entry, "*"@);
                                    lemma_list_mode(
                                        sub_entry,
                                        "*"@,
                                        self.opt.path_encoding@,
                                        output_model(self.opt.output),
                                        cm,
                                    );
                                }
                                commands.push(c);
                                proof {
                                    assert(commands_model(commands@) =~= cm.push(command_model(c)));
                                }
                            },
                            None => {
                                proof {
                                    lemma_list_mode(
                                        sub_entry,
                                        "*"@,
                                        self.opt.path_encoding@,
                                        output_model(self.opt.output),
                                        cm,
                                    );
                                    assert(args_entry.len() > 0);
                                    assert(args_entry[0] == "ls"@);
                                    assert(target == spec_parse_step(
                                        sub_entry,
                                        ParseMode::InList { filter: "*"@ },
                                        self.opt.path_encoding@,
                                        output_model(self.opt.output),
                                        cm,
                                    ));
                                    assert(spec_parse_list(sub_entry, "*"@) is ListHelp);
                                    assert(target == ParseModel::ListUsage);
                                }
                                return ParseOutcome::ShowListUsage;
                            },
                        }
                    } else if str_eq(arg.as_str(), "rm") {
                        let ghost cm = commands_model(commands@);
                        let ghost sub_entry = seq_views(self.args@);
                        match Remove::parse(&mut self.args) {
                            Some(c) => {
                                proof {
                                    lemma_remove_rest_len(sub_entry, Seq::<Seq<char>>::empty());
                                    lemma_remove_mode(
                                        sub_entry,
                                        Seq::<Seq<char>>::empty(),
                                        self.opt.path_encoding@,
                                        output_model(self.opt.output),
                                        cm,
                                    );
                                }
                                commands.push(c);
                                proof {
                                    assert(commands_model(commands@) =~= cm.push(command_model(c)));
                                }
                            },
                            None => {
                                proof {
                                    lemma_remove_mode(
                                        sub_entry,
                                        Seq::<Seq<char>>::empty(),
                                        self.opt.path_encoding@,
                                        output_model(self.opt.output),
                                        cm,
                                    );
                                    assert(args_entry.len() > 0);
                                    assert(args_entry[0] == "rm"@);
                                    assert(target == spec_parse_step(
                                        sub_entry,
                                        ParseMode::InRemove { filters: Seq::<Seq<char>>::empty() },
                                        self.opt.path_encoding@,
                                        output_model(self.opt.output),
                                        cm,
                                    ));
                                    assert(spec_parse_remove(sub_entry, Seq::<Seq<char>>::empty())
                                        is RemoveHelp);
                                    assert(target == ParseModel::RemoveUsage);
                                }
                                return ParseOutcome::ShowRemoveUsage;
                            },
                        }
                    } else if str_starts_with(arg.as_str(), "-") {
                        match self.parse_global_option(&arg) {
                            Ok(()) => {},
                            Err(outcome) => {
                                return outcome;
                            },
                        }
                    } else if str_ends_with(arg.as_str(), ".zip") {
                        self.args.push_front(arg);
                        proof {
                            assert(seq_views(self.args@) =~= args_entry);
                        }
                        break;
                    } else {
                        let mut message = "Unknown subcommand: ".to_owned();
                        message.append(arg.as_str());
                        proof {
                            assert(target == ParseModel::Fail {
                                message: "Unknown subcommand: "@ + args_entry[0],
                            });
                            assert(message@ == "Unknown subcommand: "@ + arg@);
                        }
                        return ParseOutcome::Fail(message);
                    }
                },
            }
        }
        // What remains are the paths; each must name a zip archive.
        let ghost path_views = seq_views(self.args@);
        let ghost opt_snap = self.opt;
        let ghost fin_commands = commands_model(commands@);
        proof {
            assert(target == spec_finish(
                opt_snap.path_encoding@,
                output_model(opt_snap.output),
                fin_commands,
                path_views,
            ));
        }
        let mut paths: Vec<String> = Vec::new();
        loop
            invariant
                self.opt == opt_snap,
                path_views == seq_views(paths@) + seq_views(self.args@),
            ensures
                self.opt == opt_snap,
                self.args@.len() == 0,
                path_views == seq_views(paths@),
            decreases self.args@.len(),
        {
            let ghost before = seq_views(self.args@);
            match self.args.pop_front() {
                None => {
                    proof {
                        assert(seq_views(self.args@) =~= Seq::<Seq<char>>::empty());
                        assert(path_views =~= seq_views(paths@));
                    }
                    break;
                },
                Some(p) => {
                    paths.push(p);
                    proof {
                        assert(seq_views(self.args@) =~= before.skip(1));
                        assert(seq_views(paths@) + seq_views(self.args@) =~= path_views);
                    }
                },
            }
        }
        let mut k: usize = 0;
        let count = paths.len();
        while k < count
            invariant
                k <= count,
                count == paths@.len(),
                path_views == seq_views(paths@),
                target == spec_parse_step(
                    seq_views(old(self).args@),
                    ParseMode::Top,
                    old(self).opt.path_encoding@,
                    output_model(old(self).opt.output),
                    Seq::<CommandModel>::empty(),
                ),
                target == spec_finish(
                    opt_snap.path_encoding@,
                    output_model(opt_snap.output),
                    fin_commands,
                    path_views,
                ),
                forall|j: int| 0 <= j < k ==> ends_with(#[trigger] seq_views(paths@)[j], ".zip"@),
            decreases count - k,
        {
            if !str_ends_with(paths[k].as_str(), ".zip") {
                let mut message = "Unknown subcommand or option: ".to_owned();
                message.append(paths[k].as_str());
                proof {
                    assert(seq_views(paths@)[k as int] == paths@[k as int]@);
                    assert(!ends_with(path_views[k as int], ".zip"@));
                    assert(!all_paths_ok(path_views));
                    lemma_first_bad(path_views, k as int);
                    assert(message@ == "Unknown subcommand or option: "@ + first_bad_path(
                        path_views,
                    ));
                }
                return ParseOutcome::Fail(message);
            }
            k = k + 1;
        }
        proof {
            assert(all_paths_ok(path_views));
        }
        let mut option = GlobalOption::default();
        std::mem::swap(&mut option, &mut self.opt);
        proof {
            assert(option == opt_snap);
            assert(target == ParseModel::Run {
                encoding: option.path_encoding@,
                output: output_model(option.output),
                commands: fin_commands,
                paths: seq_views(paths@),
            });
        }
        ParseOutcome::Run(Cli { option, commands, paths })
    }

    /// Applies one global option argument to the options, or asks the
    /// caller to stop: usage, version, or an unknown option.
    fn parse_global_option(&mut self, arg: &String) -> (r: Result<(), ParseOutcome>)
        ensures
            final(self).args == old(self).args,
            match spec_global_option(arg@) {
                GlobalStep::UsageStep => r matches Err(o) && o is ShowUsage && final(self).opt
                    == old(self).opt,
                GlobalStep::VersionStep => r matches Err(o) && o is ShowVersion && final(self).opt
                    == old(self).opt,
                GlobalStep::SetEncoding(v) => r is Ok && final(self).opt.path_encoding@ == v
                    && final(self).opt.output == old(self).opt.output,
                GlobalStep::SetOutputPath(v) => r is Ok && output_model(final(self).opt.output)
                    == OutputChoice::ToPath(v) && final(self).opt.path_encoding == old(self).opt.path_encoding,
                GlobalStep::SetOutputDir(v) => r is Ok && output_model(final(self).opt.output)
                    == OutputChoice::ToDir(v) && final(self).opt.path_encoding == old(self).opt.path_encoding,
                GlobalStep::SetOverwrite => r is Ok && final(self).opt.output is Overwrite && final(self).opt.path_encoding == old(self).opt.path_encoding,
                GlobalStep::UnknownOption => r matches Err(o) && o matches ParseOutcome::Fail(m)
                    && m@ == "Unknown option: "@ + arg@ && final(self).opt == old(self).opt,
            },
    {
        if str_eq(arg.as_str(), "-h") || str_eq(arg.as_str(), "--help") {
            Err(ParseOutcome::ShowUsage)
        } else if str_eq(arg.as_str(), "-v") || str_eq(arg.as_str(), "--version") {
            Err(ParseOutcome::ShowVersion)
        } else if str_starts_with(arg.as_str(), "-e=") || str_starts_with(
            arg.as_str(),
            "--encoding=",
        ) {
            self.opt.path_encoding = value_after_eq(arg.as_str());
            Ok(())
        } else if str_starts_with(arg.as_str(), "-o=") || str_starts_with(
            arg.as_str(),
            "--output=",
        ) {
            self.opt.output = OutputOption::Path(value_after_eq(arg.as_str()));
            Ok(())
        } else if str_starts_with(arg.as_str(), "--output-dir=") {
            self.opt.output = OutputOption::Dir(value_after_eq(arg.as_str()));
            Ok(())
        } else if str_eq(arg.as_str(), "--overwrite") {
            self.opt.output = OutputOption::Overwrite;
            Ok(())
        } else {
            let mut message = "Unknown option: ".to_owned();
            message.append(arg.as_str());
            Err(ParseOutcome::Fail(message))
        }
    }
}

} // verus!
