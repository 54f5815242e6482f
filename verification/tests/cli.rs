use piolsp::cli::{parse_args, Args, Command, LogLevel, RunMode};

fn run(args: &[&str]) -> Command {
    parse_args(&args.iter().map(|a| a.to_string()).collect())
}

fn args(args: &[&str]) -> Args {
    match run(args) {
        Command::Run(a) => a,
        _ => panic!("expected a run"),
    }
}

fn invalid(args: &[&str]) -> String {
    match run(args) {
        Command::Invalid(m) => m,
        _ => panic!("expected an error"),
    }
}

#[test]
fn defaults_to_lsp() {
    let a = args(&[]);
    assert_eq!(a.log_file, None);
    assert_eq!(a.log_level, LogLevel::Info);
    assert!(matches!(a.run_mode, RunMode::Lsp { pioasm: None }));
}

#[test]
fn reads_options() {
    let a = args(&["-v", "--pioasm", "/bin/pioasm", "--logfile", "log.txt"]);
    assert_eq!(a.log_level, LogLevel::Debug);
    assert_eq!(a.log_file.as_deref(), Some("log.txt"));
    match a.run_mode {
        RunMode::Lsp { pioasm } => assert_eq!(pioasm.as_deref(), Some("/bin/pioasm")),
        _ => panic!("expected lsp"),
    }
}

#[test]
fn reads_format_mode() {
    match args(&["fmt", "a.pio"]).run_mode {
        RunMode::Format { path } => assert_eq!(path.as_deref(), Some("a.pio")),
        _ => panic!("expected format"),
    }
    match args(&["format", "-"]).run_mode {
        RunMode::Format { path } => assert_eq!(path, None),
        _ => panic!("expected format"),
    }
    match args(&["format"]).run_mode {
        RunMode::Format { path } => assert_eq!(path, None),
        _ => panic!("expected format"),
    }
}

#[test]
fn help_and_version_stop_reading() {
    assert!(matches!(run(&["--help", "bogus"]), Command::Help));
    assert!(matches!(run(&["--pioasm", "--version"]), Command::Version));
}

#[test]
fn reports_wrong_command_lines() {
    assert_eq!(invalid(&["bogus"]), "unexpected arg: bogus");
    assert_eq!(invalid(&["--pioasm"]), "no input file for pioasm provided");
    assert_eq!(invalid(&["--logfile"]), "no input file for logfile provided");
    assert_eq!(invalid(&["fmt", "a.pio", "--pioasm", "p"]), "--pioasm can't be used with format");
    assert_eq!(invalid(&["fmt", "a.pio", "b.pio"]), "unexpected arg: b.pio");
}
