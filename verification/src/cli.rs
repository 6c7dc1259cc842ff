//! Command-line arguments for headless operation: the `clap` command that
//! describes them, parsing into `Cli`, and the output mode they select.

use vstd::prelude::*;

use clap::{Arg, ArgAction, ArgGroup, ArgMatches, Command};

use crate::model::opt_view;

verus! {

#[verifier::external_type_specification]
#[verifier::external_body]
pub struct ExCommand(Command);

#[verifier::external_type_specification]
#[verifier::external_body]
pub struct ExArgMatches(ArgMatches);

/// What parsing depends on of one argument: its id, its short and long
/// names (a positional argument has neither), and whether it takes a value
/// (`ArgAction::Set`) or is a boolean flag (`ArgAction::SetTrue`).
pub struct ArgView {
    pub id: Seq<char>,
    pub short: Option<char>,
    pub long: Option<Seq<char>>,
    pub takes_value: bool,
}

/// What parsing depends on of a command: its arguments in the order they
/// were added, its groups (each an id and the ids of its arguments, at most
/// one of which may be given), and whether it has a version. Names, help
/// texts and the version text only shape messages.
pub struct CommandView {
    pub args: Seq<ArgView>,
    pub groups: Seq<(Seq<char>, Seq<Seq<char>>)>,
    pub versioned: bool,
}

/// A name `clap` reserves for the help and version arguments it adds.
pub open spec fn reserved_name(s: Seq<char>) -> bool {
    s == "help"@ || s == "version"@
}

/// A command on which `clap`'s debug assertions hold: argument and group
/// ids unique and apart from the reserved ones, short and long names
/// unique and apart from `-h`, `-V`, `--help`, `--version`, no short name
/// `-`, no long name starting with `-`, and every group member an argument.
pub open spec fn command_wf(v: CommandView) -> bool {
    &&& forall|i: int, j: int| 0 <= i < j < v.args.len() ==> #[trigger] v.args[i].id != #[trigger] v.args[j].id
    &&& forall|i: int, j: int| 0 <= i < j < v.args.len() && v.args[i].short is Some
        ==> #[trigger] v.args[i].short != #[trigger] v.args[j].short
    &&& forall|i: int, j: int| 0 <= i < j < v.args.len() && v.args[i].long is Some
        ==> #[trigger] v.args[i].long != #[trigger] v.args[j].long
    &&& forall|i: int| 0 <= i < v.args.len() ==> {
        &&& !reserved_name(#[trigger] v.args[i].id)
        &&& v.args[i].short != Some('h') && v.args[i].short != Some('V') && v.args[i].short != Some('-')
        &&& (v.args[i].long matches Some(l) ==> !reserved_name(l) && !(l.len() > 0 && l[0] == '-'))
    }
    &&& forall|g: int, h: int| 0 <= g < h < v.groups.len() ==> #[trigger] v.groups[g].0 != #[trigger] v.groups[h].0
    &&& forall|g: int| 0 <= g < v.groups.len() ==> !reserved_name(#[trigger] v.groups[g].0)
    &&& forall|g: int, i: int| 0 <= g < v.groups.len() && 0 <= i < v.args.len()
        ==> #[trigger] v.groups[g].0 != #[trigger] v.args[i].id
    &&& forall|g: int, k: int| 0 <= g < v.groups.len() && 0 <= k < v.groups[g].1.len()
        ==> exists|i: int| 0 <= i < v.args.len() && v.args[i].id == #[trigger] v.groups[g].1[k]
}

/// A `clap` command together with what parsing depends on of it.
pub struct CliCommand {
    cmd: Command,
    shape: Ghost<CommandView>,
}

impl CliCommand {
    /// What parsing depends on of the command.
    pub closed spec fn view(self) -> CommandView {
        self.shape@
    }
}

/// The arguments and the command view after adding one argument.
pub open spec fn with_arg(v: CommandView, a: ArgView) -> CommandView {
    CommandView { args: v.args.push(a), groups: v.groups, versioned: v.versioned }
}

/// `Command::new(name)`: a command without arguments, groups or version.
#[verifier::external_body]
fn command_named(name: &'static str) -> (c: CliCommand)
    ensures
        c.view() == (CommandView { args: Seq::empty(), groups: Seq::empty(), versioned: false }),
{
    CliCommand {
        cmd: Command::new(name),
        shape: Ghost(CommandView { args: Seq::empty(), groups: Seq::empty(), versioned: false }),
    }
}

/// `Command::version`: the command now has a version.
#[verifier::external_body]
fn with_version(cmd: CliCommand, version: &'static str) -> (c: CliCommand)
    ensures
        c.view() == (CommandView { versioned: true, ..cmd.view() }),
{
    CliCommand { cmd: cmd.cmd.version(version), shape: Ghost(CommandView { versioned: true, ..cmd.shape@ }) }
}

/// `Command::about` and `Command::long_about`: texts only.
#[verifier::external_body]
fn with_about(cmd: CliCommand, about: &'static str, long_about: &'static str) -> (c: CliCommand)
    ensures
        c.view() == cmd.view(),
{
    CliCommand { cmd: cmd.cmd.about(about).long_about(long_about), shape: cmd.shape }
}

/// Adds a positional argument that takes one value (`ArgAction::Set`).
#[verifier::external_body]
fn with_positional(cmd: CliCommand, id: &'static str, value_name: &'static str, help: &'static str, long_help: &'static str) -> (c: CliCommand)
    ensures
        c.view() == with_arg(cmd.view(), ArgView { id: id@, short: None, long: None, takes_value: true }),
{
    let arg = Arg::new(id).value_name(value_name).action(ArgAction::Set).help(help).long_help(long_help);
    CliCommand {
        cmd: cmd.cmd.arg(arg),
        shape: Ghost(with_arg(cmd.shape@, ArgView { id: id@, short: None, long: None, takes_value: true })),
    }
}

/// Adds a boolean flag (`ArgAction::SetTrue`) with a short and a long name.
/// `Arg::short` asserts that the short name is not `-`.
#[verifier::external_body]
fn with_flag(cmd: CliCommand, id: &'static str, short: char, long: &'static str, help: &'static str, long_help: &'static str) -> (c: CliCommand)
    requires
        short != '-',
    ensures
        c.view() == with_arg(cmd.view(), ArgView { id: id@, short: Some(short), long: Some(long@), takes_value: false }),
{
    let arg = Arg::new(id).short(short).long(long).action(ArgAction::SetTrue).help(help).long_help(long_help);
    CliCommand {
        cmd: cmd.cmd.arg(arg),
        shape: Ghost(with_arg(cmd.shape@, ArgView { id: id@, short: Some(short), long: Some(long@), takes_value: false })),
    }
}

/// Adds an option that takes one value (`ArgAction::Set`) with a short and
/// a long name. `Arg::short` asserts that the short name is not `-`.
#[verifier::external_body]
fn with_option(cmd: CliCommand, id: &'static str, short: char, long: &'static str, value_name: &'static str, help: &'static str, long_help: &'static str) -> (c: CliCommand)
    requires
        short != '-',
    ensures
        c.view() == with_arg(cmd.view(), ArgView { id: id@, short: Some(short), long: Some(long@), takes_value: true }),
{
    let arg = Arg::new(id).short(short).long(long).value_name(value_name).action(ArgAction::Set).help(help).long_help(long_help);
    CliCommand {
        cmd: cmd.cmd.arg(arg),
        shape: Ghost(with_arg(cmd.shape@, ArgView { id: id@, short: Some(short), long: Some(long@), takes_value: true })),
    }
}

/// Adds the group `id` of the two arguments, at most one of which may be
/// given (`ArgGroup::new(id).args([a, b])`).
#[verifier::external_body]
fn with_exclusive_group(cmd: CliCommand, id: &'static str, a: &'static str, b: &'static str) -> (c: CliCommand)
    ensures
        c.view() == (CommandView { groups: cmd.view().groups.push((id@, seq![a@, b@])), ..cmd.view() }),
{
    CliCommand {
        cmd: cmd.cmd.group(ArgGroup::new(id).args([a, b])),
        shape: Ghost(CommandView { groups: cmd.shape@.groups.push((id@, seq![a@, b@])), ..cmd.shape@ }),
    }
}

/// The views of command-line arguments.
pub open spec fn args_view(args: Seq<&str>) -> Seq<Seq<char>> {
    args.map_values(|a: &str| a@)
}

/// Whether `Command::try_get_matches_from` accepts the arguments (the
/// program name first) for a command with view `cmd`.
pub uninterp spec fn clap_parses(cmd: CommandView, args: Seq<Seq<char>>) -> bool;

/// Matches of a parse together with the command view and the arguments they
/// came from.
pub struct CliMatches {
    m: ArgMatches,
    from: Ghost<(CommandView, Seq<Seq<char>>)>,
}

impl CliMatches {
    /// The command view and the arguments of the parse.
    pub closed spec fn view(self) -> (CommandView, Seq<Seq<char>>) {
        self.from@
    }
}

/// `Command::try_get_matches_from(args)`; an error as its rendered message,
/// whether it goes to stderr (`use_stderr`) and its exit code (`exit_code`).
/// The command must pass `clap`'s debug assertions (`command_wf`), which
/// panic otherwise. Nothing is stated of an error's message, stream or
/// code.
#[verifier::external_body]
fn matches_from(cmd: CliCommand, args: &[&str]) -> (r: Result<CliMatches, (String, bool, i32)>)
    requires
        command_wf(cmd.view()),
    ensures
        r is Ok <==> clap_parses(cmd.view(), args_view(args@)),
        r matches Ok(m) ==> m.view() == (cmd.view(), args_view(args@)),
{
    let from = Ghost((cmd.shape@, args_view(args@)));
    match cmd.cmd.try_get_matches_from(args.iter().copied()) {
        Ok(m) => Ok(CliMatches { m, from }),
        Err(e) => Err((e.render().to_string(), e.use_stderr(), e.exit_code())),
    }
}

/// What `ArgMatches::try_get_one::<bool>(id)` gives, a lookup error as
/// `None`, after parsing `args` with a command with view `cmd`.
pub uninterp spec fn clap_flag(cmd: CommandView, args: Seq<Seq<char>>, id: Seq<char>) -> Option<bool>;

/// `ArgMatches::try_get_one::<bool>(id)`, with a lookup error as `None`.
#[verifier::external_body]
fn flag_value(m: &CliMatches, id: &str) -> (r: Option<bool>)
    ensures
        r == clap_flag(m.view().0, m.view().1, id@),
{
    m.m.try_get_one::<bool>(id).ok().flatten().copied()
}

/// What `ArgMatches::try_get_one::<String>(id)` gives, a lookup error as
/// `None`, after parsing `args` with a command with view `cmd`.
pub uninterp spec fn clap_value(cmd: CommandView, args: Seq<Seq<char>>, id: Seq<char>) -> Option<Seq<char>>;

/// `ArgMatches::try_get_one::<String>(id)`, with a lookup error as `None`.
#[verifier::external_body]
fn string_value(m: &CliMatches, id: &str) -> (r: Option<String>)
    ensures
        opt_view(r) == clap_value(m.view().0, m.view().1, id@),
{
    m.m.try_get_one::<String>(id).ok().flatten().cloned()
}

/// Output mode determined by CLI flags.
#[derive(Debug, Clone, Copy, PartialEq, Eq, Structural)]
pub enum OutputMode {
    /// No output flags - launch the GUI (default).
    Gui,
    /// `--json` specified - output structured JSON.
    Json,
    /// `--summary` specified - output human-readable summary.
    Summary,
}

impl Default for OutputMode {
    fn default() -> (m: OutputMode)
        ensures
            m == OutputMode::Gui,
    {
        OutputMode::Gui
    }
}

/// Why the arguments were not accepted, or a help or version request: the
/// message `clap` rendered, whether it belongs on stderr, and the exit code.
#[derive(Debug)]
pub struct CliError {
    pub message: String,
    pub use_stderr: bool,
    pub exit_code: i32,
}

/// WebAssembly function size explorer.
///
/// wasm-poke helps you understand where code size comes from in your
/// WebAssembly binaries. Use it interactively with the GUI, or in
/// headless mode with --json or --summary for CI/scripting.
#[derive(Debug)]
pub struct Cli {
    /// Input .wasm file to analyze.
    ///
    /// If not provided, the GUI will open without a file loaded.
    /// Use "-" to read from stdin (headless mode only).
    pub file: Option<String>,
    /// Output structured JSON with function info and call graph.
    ///
    /// Mutually exclusive with --summary.
    pub json: bool,
    /// Output human-readable summary with function list.
    ///
    /// Mutually exclusive with --json.
    pub summary: bool,
    /// Write output to file instead of stdout.
    ///
    /// Only valid with --json or --summary.
    pub output: Option<String>,
    /// Suppress progress messages and warnings.
    ///
    /// Only affects stderr output; --json/--summary output is unaffected.
    pub quiet: bool,
}

/// The output mode the flags select: `--json` first, then `--summary`, else
/// the GUI.
pub open spec fn mode_of(json: bool, summary: bool) -> OutputMode {
    if json {
        OutputMode::Json
    } else if summary {
        OutputMode::Summary
    } else {
        OutputMode::Gui
    }
}

/// A flag's value as `Cli` holds it: unset is `false`.
pub open spec fn flag_set(o: Option<bool>) -> bool {
    match o {
        Some(b) => b,
        None => false,
    }
}

/// What parsing depends on of the `wasm-poke` command: the positional
/// FILE, the flags `-j/--json` and `-s/--summary` (in the group
/// `output_mode`, at most one of them), the option `-o/--output PATH`, the
/// flag `-q/--quiet`, and a version.
pub open spec fn cli_command_view() -> CommandView {
    CommandView {
        args: seq![
            ArgView { id: "file"@, short: None, long: None, takes_value: true },
            ArgView { id: "json"@, short: Some('j'), long: Some("json"@), takes_value: false },
            ArgView { id: "summary"@, short: Some('s'), long: Some("summary"@), takes_value: false },
            ArgView { id: "output"@, short: Some('o'), long: Some("output"@), takes_value: true },
            ArgView { id: "quiet"@, short: Some('q'), long: Some("quiet"@), takes_value: false },
        ],
        groups: seq![("output_mode"@, seq!["json"@, "summary"@])],
        versioned: true,
    }
}

/// The `wasm-poke` command passes `clap`'s debug assertions.
proof fn lemma_cli_command_wf()
    ensures
        command_wf(cli_command_view()),
{
    reveal_strlit("file");
    reveal_strlit("json");
    reveal_strlit("summary");
    reveal_strlit("output");
    reveal_strlit("quiet");
    reveal_strlit("output_mode");
    reveal_strlit("help");
    reveal_strlit("version");
    let v = cli_command_view();
    assert("file"@.len() == 4 && "file"@[0] == 'f');
    assert("json"@.len() == 4 && "json"@[0] == 'j');
    assert("summary"@.len() == 7);
    assert("output"@.len() == 6);
    assert("quiet"@.len() == 5);
    assert("output_mode"@.len() == 11);
    assert("help"@.len() == 4 && "help"@[0] == 'h');
    assert("version"@.len() == 7 && "version"@[0] == 'v');
    assert("summary"@[0] == 's');
    assert(v.args[0].id == "file"@);
    assert(v.args[1].id == "json"@);
    assert(v.args[2].id == "summary"@);
    assert(v.args[3].id == "output"@);
    assert(v.args[4].id == "quiet"@);
    assert(v.groups[0].1[0] == v.args[1].id);
    assert(v.groups[0].1[1] == v.args[2].id);
}

/// Builds the `wasm-poke` command.
fn build_command() -> (c: CliCommand)
    ensures
        c.view() == cli_command_view(),
        command_wf(c.view()),
{
    let cmd = command_named("wasm-poke");
    let cmd = with_version(cmd, "0.1.0");
    let cmd = with_about(
        cmd,
        "WebAssembly function size explorer",
        "wasm-poke helps you understand where code size comes from in your WebAssembly binaries.\n\nWithout output flags: Launches the interactive GUI.\nWith --json or --summary: Runs in headless mode, outputs to stdout (or file with -o).",
    );
    let cmd = with_positional(
        cmd,
        "file",
        "FILE",
        "Input .wasm file to analyze",
        "Input .wasm file to analyze.\n\nIf not provided, the GUI will open without a file loaded. Use \"-\" to read from stdin (headless mode only).",
    );
    let cmd = with_flag(
        cmd,
        "json",
        'j',
        "json",
        "Output structured JSON with function info and call graph",
        "Output structured JSON with function info and call graph.\n\nMutually exclusive with --summary.",
    );
    let cmd = with_flag(
        cmd,
        "summary",
        's',
        "summary",
        "Output human-readable summary with function list",
        "Output human-readable summary with function list.\n\nMutually exclusive with --json.",
    );
    let cmd = with_option(
        cmd,
        "output",
        'o',
        "output",
        "PATH",
        "Write output to file instead of stdout",
        "Write output to file instead of stdout.\n\nOnly valid with --json or --summary.",
    );
    let cmd = with_flag(
        cmd,
        "quiet",
        'q',
        "quiet",
        "Suppress progress messages and warnings",
        "Suppress progress messages and warnings.\n\nOnly affects stderr output; --json/--summary output is unaffected.",
    );
    let c = with_exclusive_group(cmd, "output_mode", "json", "summary");
    proof {
        assert(c.view().args =~= cli_command_view().args);
        assert(c.view().groups =~= cli_command_view().groups);
        lemma_cli_command_wf();
    }
    c
}

impl Cli {
    /// The `clap` command for `wasm-poke`: an optional FILE, the mutually
    /// exclusive `-j/--json` and `-s/--summary`, `-o/--output PATH` and
    /// `-q/--quiet` (see `cli_command_view`). The command is opaque to
    /// Verus; `Cli::try_parse_from` states what parsing with it gives.
    pub fn command() -> (c: Command) {
        build_command().cmd
    }

    /// Parses the arguments (the program name first) with the `wasm-poke`
    /// command: `Ok` exactly when `clap` accepts them, each flag set when
    /// `clap` reports it set, the file and the output path the values
    /// `clap` reports.
    pub fn try_parse_from(args: &[&str]) -> (r: Result<Cli, CliError>)
        ensures
            r is Ok <==> clap_parses(cli_command_view(), args_view(args@)),
            r matches Ok(c) ==> {
                &&& opt_view(c.file) == clap_value(cli_command_view(), args_view(args@), "file"@)
                &&& c.json == flag_set(clap_flag(cli_command_view(), args_view(args@), "json"@))
                &&& c.summary == flag_set(clap_flag(cli_command_view(), args_view(args@), "summary"@))
                &&& opt_view(c.output) == clap_value(cli_command_view(), args_view(args@), "output"@)
                &&& c.quiet == flag_set(clap_flag(cli_command_view(), args_view(args@), "quiet"@))
            },
    {
        match matches_from(build_command(), args) {
            Ok(m) => {
                let json = match flag_value(&m, "json") { Some(b) => b, None => false };
                let summary = match flag_value(&m, "summary") { Some(b) => b, None => false };
                let quiet = match flag_value(&m, "quiet") { Some(b) => b, None => false };
                Ok(Cli {
                    file: string_value(&m, "file"),
                    json,
                    summary,
                    output: string_value(&m, "output"),
                    quiet,
                })
            },
            Err((message, use_stderr, exit_code)) => Err(CliError { message, use_stderr, exit_code }),
        }
    }

    /// Determine the output mode based on CLI flags.
    pub fn output_mode(&self) -> (m: OutputMode)
        ensures
            m == mode_of(self.json, self.summary),
    {
        if self.json {
            OutputMode::Json
        } else if self.summary {
            OutputMode::Summary
        } else {
            OutputMode::Gui
        }
    }
}

} // verus!
