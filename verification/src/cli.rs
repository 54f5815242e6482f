//! The command line of the server: options, the format mode and its file.
use vstd::prelude::*;
use vstd::string::StringExecFns;
use crate::text::str_eq;

verus! {

/// How much the server logs.
#[derive(Clone, Copy, Debug, PartialEq, Eq, Structural)]
pub enum LogLevel {
    Info,
    Debug,
}

/// What the program does.
pub enum RunMode {
    /// format a file (`None`: the standard input) to the standard output
    Format { path: Option<String> },
    /// serve the language server protocol, checking with `pioasm` (`None`:
    /// the one on the search path)
    Lsp { pioasm: Option<String> },
}

/// The options of a run.
pub struct Args {
    pub log_file: Option<String>,
    pub log_level: LogLevel,
    pub run_mode: RunMode,
}

/// What the command line asks for.
pub enum Command {
    /// print the usage and exit
    Help,
    /// print the version and exit
    Version,
    /// run with these options
    Run(Args),
    /// the command line is wrong: print this message and the usage
    Invalid(String),
}

/// The option that the next argument is the path for.
#[derive(Clone, Copy, Debug, PartialEq, Eq, Structural)]
pub enum PathFor {
    Pioasm,
    Logfile,
}

/// The run mode as plain values.
pub enum ModeSt {
    Format { path: Option<Seq<char>> },
    Lsp { pioasm: Option<Seq<char>> },
}

/// The state of reading the command line.
pub struct CliSt {
    pub log_file: Option<Seq<char>>,
    pub debug: bool,
    pub mode: ModeSt,
    pub next_path: Option<PathFor>,
    pub next_is_fmt_file: bool,
}

/// Where reading the command line stands after some arguments.
pub enum CliStep {
    Go(CliSt),
    Help,
    Version,
    Fail(Seq<char>),
}

/// The state before the first argument: log at `Info` to the standard
/// error, serve the language server protocol.
pub open spec fn cli_start() -> CliSt {
    CliSt {
        log_file: None,
        debug: false,
        mode: ModeSt::Lsp { pioasm: None },
        next_path: None,
        next_is_fmt_file: false,
    }
}

/// Reads one argument `a`.
pub open spec fn cli_step(st: CliSt, a: Seq<char>) -> CliStep {
    if a == "--help"@ {
        CliStep::Help
    } else if a == "--version"@ {
        CliStep::Version
    } else if a == "--verbose"@ || a == "-v"@ {
        CliStep::Go(CliSt { debug: true, ..st })
    } else if st.next_path == Some(PathFor::Pioasm) {
        match st.mode {
            ModeSt::Format { .. } => CliStep::Fail("--pioasm can't be used with format"@),
            ModeSt::Lsp { .. } => CliStep::Go(
                CliSt { next_path: None, mode: ModeSt::Lsp { pioasm: Some(a) }, ..st },
            ),
        }
    } else if st.next_path == Some(PathFor::Logfile) {
        CliStep::Go(CliSt { next_path: None, log_file: Some(a), ..st })
    } else if a == "--pioasm"@ {
        CliStep::Go(CliSt { next_path: Some(PathFor::Pioasm), ..st })
    } else if a == "--logfile"@ {
        CliStep::Go(CliSt { next_path: Some(PathFor::Logfile), ..st })
    } else if st.next_is_fmt_file && st.mode is Format {
        CliStep::Go(
            CliSt {
                mode: ModeSt::Format { path: if a == ""@ || a == "-"@ { None } else { Some(a) } },
                next_is_fmt_file: false,
                ..st
            },
        )
    } else if (a == "fmt"@ || a == "format"@) && !(st.mode is Format) {
        CliStep::Go(CliSt { mode: ModeSt::Format { path: None }, next_is_fmt_file: true, ..st })
    } else {
        CliStep::Fail("unexpected arg: "@ + a)
    }
}

/// Where reading stands after the first `k` arguments; it stops at the
/// first argument that asks for help or the version or is wrong.
pub open spec fn cli_upto(args: Seq<Seq<char>>, k: int) -> CliStep
    decreases k,
{
    if k <= 0 {
        CliStep::Go(cli_start())
    } else {
        match cli_upto(args, k - 1) {
            CliStep::Go(st) => cli_step(st, args[k - 1]),
            other => other,
        }
    }
}

/// What the command line `args` (without the program's name) asks for; a
/// path option at the end without its path is wrong.
pub open spec fn command_of(args: Seq<Seq<char>>) -> CliStep {
    match cli_upto(args, args.len() as int) {
        CliStep::Go(st) => match st.next_path {
            Some(PathFor::Pioasm) => CliStep::Fail("no input file for pioasm provided"@),
            Some(PathFor::Logfile) => CliStep::Fail("no input file for logfile provided"@),
            None => CliStep::Go(st),
        },
        other => other,
    }
}

pub open spec fn args_view(args: Seq<String>) -> Seq<Seq<char>> {
    Seq::new(args.len(), |i: int| args[i]@)
}

pub open spec fn opt_view(o: Option<String>) -> Option<Seq<char>> {
    match o {
        Some(s) => Some(s@),
        None => None,
    }
}

impl RunMode {
    pub open spec fn st(&self) -> ModeSt {
        match self {
            RunMode::Format { path } => ModeSt::Format { path: opt_view(*path) },
            RunMode::Lsp { pioasm } => ModeSt::Lsp { pioasm: opt_view(*pioasm) },
        }
    }
}

impl Command {
    /// The command as the outcome of reading the command line.
    pub open spec fn st(&self) -> CliStep {
        match self {
            Command::Help => CliStep::Help,
            Command::Version => CliStep::Version,
            Command::Invalid(m) => CliStep::Fail(m@),
            Command::Run(a) => CliStep::Go(
                CliSt {
                    log_file: opt_view(a.log_file),
                    debug: a.log_level == LogLevel::Debug,
                    mode: a.run_mode.st(),
                    next_path: None,
                    next_is_fmt_file: false,
                },
            ),
        }
    }
}

/// Once reading has stopped, later arguments change nothing.
proof fn lemma_cli_stop_stays(args: Seq<Seq<char>>, i: int, k: int)
    requires
        0 <= i <= k,
        !(cli_upto(args, i) is Go),
    ensures
        cli_upto(args, k) == cli_upto(args, i),
    decreases k - i,
{
    if k > i {
        lemma_cli_stop_stays(args, i, k - 1);
    }
}

/// Reads the command line `args` (without the program's name). Only what a
/// run needs is kept: whether a format file was announced but not given is
/// not part of the result.
pub fn parse_args(args: &Vec<String>) -> (r: Command)
    ensures
        match command_of(args_view(args@)) {
            CliStep::Go(st) => r.st() == CliStep::Go(CliSt { next_is_fmt_file: false, ..st }),
            other => r.st() == other,
        },
{
    let ghost av = args_view(args@);
    let mut log_file: Option<String> = None;
    let mut log_level = LogLevel::Info;
    let mut run_mode = RunMode::Lsp { pioasm: None };
    let mut next_path: Option<PathFor> = None;
    let mut next_is_fmt_file = false;
    let mut i: usize = 0;
    while i < args.len()
        invariant
            i <= args@.len(),
            av == args_view(args@),
            cli_upto(av, i as int) == CliStep::Go(
                CliSt {
                    log_file: opt_view(log_file),
                    debug: log_level == LogLevel::Debug,
                    mode: run_mode.st(),
                    next_path,
                    next_is_fmt_file,
                },
            ),
        decreases args@.len() - i,
    {
        let a = args[i].as_str();
        assert(a@ == av[i as int]);
        if str_eq(a, "--help") {
            proof {
                lemma_cli_stop_stays(av, i + 1, av.len() as int);
            }
            return Command::Help;
        } else if str_eq(a, "--version") {
            proof {
                lemma_cli_stop_stays(av, i + 1, av.len() as int);
            }
            return Command::Version;
        } else if str_eq(a, "--verbose") || str_eq(a, "-v") {
            log_level = LogLevel::Debug;
        } else if next_path == Some(PathFor::Pioasm) {
            match run_mode {
                RunMode::Format { .. } => {
                    proof {
                        lemma_cli_stop_stays(av, i + 1, av.len() as int);
                    }
                    return Command::Invalid("--pioasm can't be used with format".to_owned());
                },
                RunMode::Lsp { .. } => {
                    next_path = None;
                    run_mode = RunMode::Lsp { pioasm: Some(a.to_owned()) };
                },
            }
        } else if next_path == Some(PathFor::Logfile) {
            next_path = None;
            log_file = Some(a.to_owned());
        } else if str_eq(a, "--pioasm") {
            next_path = Some(PathFor::Pioasm);
        } else if str_eq(a, "--logfile") {
            next_path = Some(PathFor::Logfile);
        } else if next_is_fmt_file && matches!(run_mode, RunMode::Format { .. }) {
            let path = if str_eq(a, "") || str_eq(a, "-") {
                None
            } else {
                Some(a.to_owned())
            };
            run_mode = RunMode::Format { path };
            next_is_fmt_file = false;
        } else if (str_eq(a, "fmt") || str_eq(a, "format")) && !matches!(run_mode, RunMode::Format { .. }) {
            run_mode = RunMode::Format { path: None };
            next_is_fmt_file = true;
        } else {
            let mut msg = String::from_str("unexpected arg: ");
            msg.append(a);
            proof {
                lemma_cli_stop_stays(av, i + 1, av.len() as int);
            }
            return Command::Invalid(msg);
        }
        i = i + 1;
    }
    match next_path {
        Some(PathFor::Pioasm) => Command::Invalid("no input file for pioasm provided".to_owned()),
        Some(PathFor::Logfile) => Command::Invalid("no input file for logfile provided".to_owned()),
        None => Command::Run(Args { log_file, log_level, run_mode }),
    }
}

} // verus!

verus! {

/// `--help` or `--version` as the first argument is what the command line
/// asks for, whatever follows.
pub proof fn help_or_version_first_wins(a: Seq<char>, rest: Seq<Seq<char>>)
    requires
        a == "--help"@ || a == "--version"@,
    ensures
        a == "--help"@ ==> command_of(seq![a] + rest) == CliStep::Help,
        a == "--version"@ ==> command_of(seq![a] + rest) == CliStep::Version,
{
    reveal_strlit("--help");
    reveal_strlit("--version");
    assert("--help"@.len() != "--version"@.len());
    let args = seq![a] + rest;
    assert(args[0] == a);
    assert(cli_upto(args, 0) == CliStep::Go(cli_start()));
    assert(cli_upto(args, 1) == cli_step(cli_start(), a));
    lemma_cli_stop_stays(args, 1, args.len() as int);
}

} // verus!

verus! {

/// Reading turned to debug logging: the same outcome with `debug` set.
pub open spec fn with_debug(s: CliStep) -> CliStep {
    match s {
        CliStep::Go(st) => CliStep::Go(CliSt { debug: true, ..st }),
        other => other,
    }
}

proof fn lemma_verbose_prefix(a: Seq<char>, rest: Seq<Seq<char>>, k: int)
    requires
        a == "--verbose"@ || a == "-v"@,
        a != "--help"@,
        a != "--version"@,
        0 <= k <= rest.len(),
    ensures
        cli_upto(seq![a] + rest, k + 1) == with_debug(cli_upto(rest, k)),
    decreases k,
{
    let args = seq![a] + rest;
    if k == 0 {
        assert(args[0] == a);
        assert(cli_upto(args, 0) == CliStep::Go(cli_start()));
    } else {
        lemma_verbose_prefix(a, rest, k - 1);
        assert(args[k] == rest[k - 1]);
    }
}

/// `--verbose` and `-v` ask for debug logging and nothing else: put in
/// front of any command line, either gives what that command line gives,
/// with debug logging when it runs.
pub proof fn verbose_only_turns_on_debug(a: Seq<char>, rest: Seq<Seq<char>>)
    requires
        a == "--verbose"@ || a == "-v"@,
    ensures
        command_of(seq![a] + rest) == with_debug(command_of(rest)),
{
    reveal_strlit("--help");
    reveal_strlit("--version");
    reveal_strlit("--verbose");
    reveal_strlit("-v");
    assert("--verbose"@[5] != "--version"@[5]);
    assert("--verbose"@[5] != "--help"@[5]);
    assert("-v"@.len() != "--help"@.len());
    assert("-v"@.len() != "--version"@.len());
    lemma_verbose_prefix(a, rest, rest.len() as int);
    assert((seq![a] + rest).len() == rest.len() + 1);
}

} // verus!
