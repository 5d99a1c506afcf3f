//! The decisions of the command line: what the arguments ask for, and what becomes of each input.

pub mod laws;

use vstd::prelude::*;

use crate::diagnostic::{findings, Diagnostic};
use crate::lint::{fix_findings, fix_sql, fixed_sql, lint_sql, sql_findings};
use crate::text::{contains_pair, has_pair, same_text};

verus! {

/// The argument that stands for the standard input.
pub const STDIN_ARG: &'static str = "-";

/// How the standard input is shown.
pub const STDIN_DISPLAY: &'static str = "<stdin>";

/// The form of the output.
#[derive(Clone, Copy, PartialEq, Eq, Structural, Debug)]
pub enum OutputFormat {
    Text,
    Json,
}

impl OutputFormat {
    /// Whether the output is JSON.
    pub fn is_json(self) -> (r: bool)
        ensures
            r == (self is Json),
    {
        match self {
            OutputFormat::Json => true,
            OutputFormat::Text => false,
        }
    }
}

impl Default for OutputFormat {
    fn default() -> (r: OutputFormat)
        ensures
            r == OutputFormat::Text,
    {
        OutputFormat::Text
    }
}

/// Where SQL comes from.
#[derive(Debug)]
pub enum InputSource {
    Stdin,
    File(String),
}

/// How an input is shown to the user.
pub open spec fn shown(source: InputSource) -> Seq<char> {
    match source {
        InputSource::Stdin => STDIN_DISPLAY@,
        InputSource::File(path) => path@,
    }
}

impl InputSource {
    /// Reads an argument: `-` is the standard input, all else the path of a file.
    pub fn from_str(s: &str) -> (r: InputSource)
        ensures
            match r {
                InputSource::Stdin => s@ == STDIN_ARG@,
                InputSource::File(path) => s@ != STDIN_ARG@ && path@ == s@,
            },
    {
        if same_text(s, STDIN_ARG) {
            InputSource::Stdin
        } else {
            InputSource::File(s.to_owned())
        }
    }

    /// Whether this is the standard input.
    pub fn is_stdin(&self) -> (r: bool)
        ensures
            r == (self is Stdin),
    {
        match self {
            InputSource::Stdin => true,
            InputSource::File(_) => false,
        }
    }

    /// How the input is shown to the user.
    pub fn display(&self) -> (r: String)
        ensures
            r@ == shown(*self),
    {
        match self {
            InputSource::Stdin => STDIN_DISPLAY.to_owned(),
            InputSource::File(path) => path.clone(),
        }
    }
}

/// The arguments of the program.
#[derive(Debug)]
pub struct Args {
    /// The inputs.
    pub files: Vec<InputSource>,
    /// Whether the inputs are to be fixed, not only linted.
    pub fix: bool,
    /// The file for the fixed SQL.
    pub output: Option<String>,
    /// The form of the output.
    pub format: OutputFormat,
}

/// What the program is to do.
#[derive(Clone, Copy, PartialEq, Eq, Structural, Debug)]
pub enum Mode {
    Lint,
    Fix,
}

/// What is wrong with the arguments.
#[derive(Clone, Copy, PartialEq, Eq, Structural, Debug)]
pub enum UsageError {
    /// There is no input.
    NoFiles,
    /// The standard input is named more than once.
    StdinTwice,
    /// There is an output file, but nothing is to be fixed.
    OutputWithoutFix,
    /// There is one output file for several inputs.
    OutputForMany,
    /// The standard input would be typed in.
    StdinIsTerminal,
}

/// How often the standard input is named.
pub open spec fn stdin_count(files: Seq<InputSource>) -> nat
    decreases files.len(),
{
    if files.len() == 0 {
        0
    } else {
        stdin_count(files.drop_last()) + (if files.last() is Stdin {
            1nat
        } else {
            0nat
        })
    }
}

/// What the arguments ask for. Of several errors, the first one in the order of [`UsageError`] is
/// told.
pub open spec fn asked(args: Args, stdin_is_terminal: bool) -> Result<Mode, UsageError> {
    if args.files@.len() == 0 {
        Err(UsageError::NoFiles)
    } else if stdin_count(args.files@) > 1 {
        Err(UsageError::StdinTwice)
    } else if args.output is Some && !args.fix {
        Err(UsageError::OutputWithoutFix)
    } else if args.output is Some && args.files@.len() > 1 {
        Err(UsageError::OutputForMany)
    } else if stdin_count(args.files@) > 0 && stdin_is_terminal {
        Err(UsageError::StdinIsTerminal)
    } else if args.fix {
        Ok(Mode::Fix)
    } else {
        Ok(Mode::Lint)
    }
}

/// Decides what the arguments ask for.
pub fn plan_run(args: &Args, stdin_is_terminal: bool) -> (r: Result<Mode, UsageError>)
    ensures
        r == asked(*args, stdin_is_terminal),
{
    if args.files.len() == 0 {
        return Err(UsageError::NoFiles);
    }
    let mut count: usize = 0;
    let mut i: usize = 0;
    let ghost files = args.files@;
    while i < args.files.len()
        invariant
            i <= args.files@.len(),
            files == args.files@,
            count <= i,
            count == stdin_count(files.take(i as int)),
        decreases args.files@.len() - i,
    {
        assert(files.take(i + 1).drop_last() =~= files.take(i as int));
        if args.files[i].is_stdin() {
            count += 1;
        }
        i += 1;
    }
    assert(files.take(i as int) =~= files);
    if count > 1 {
        Err(UsageError::StdinTwice)
    } else if args.output.is_some() && !args.fix {
        Err(UsageError::OutputWithoutFix)
    } else if args.output.is_some() && args.files.len() > 1 {
        Err(UsageError::OutputForMany)
    } else if count > 0 && stdin_is_terminal {
        Err(UsageError::StdinIsTerminal)
    } else if args.fix {
        Ok(Mode::Fix)
    } else {
        Ok(Mode::Lint)
    }
}

impl UsageError {
    /// What the user is told.
    pub open spec fn text(self) -> Seq<char> {
        match self {
            UsageError::NoFiles =>
                "Usage: dsql-lint <file.sql> [file2.sql ...] or dsql-lint - (read from stdin)"@,
            UsageError::StdinTwice =>
                "Error: '-' (stdin) may appear at most once in the argument list"@,
            UsageError::OutputWithoutFix => "Error: -o/--output requires --fix"@,
            UsageError::OutputForMany =>
                "Error: -o/--output can only be used with a single input file"@,
            UsageError::StdinIsTerminal =>
                "Error: '-' reads from stdin, but stdin is a terminal. Pipe SQL in (e.g. `cat file.sql | dsql-lint -`) or pass a filename."@,
        }
    }

    /// What the user is told.
    pub fn message(self) -> (r: &'static str)
        ensures
            r@ == self.text(),
    {
        match self {
            UsageError::NoFiles =>
                "Usage: dsql-lint <file.sql> [file2.sql ...] or dsql-lint - (read from stdin)",
            UsageError::StdinTwice =>
                "Error: '-' (stdin) may appear at most once in the argument list",
            UsageError::OutputWithoutFix => "Error: -o/--output requires --fix",
            UsageError::OutputForMany =>
                "Error: -o/--output can only be used with a single input file",
            UsageError::StdinIsTerminal =>
                "Error: '-' reads from stdin, but stdin is a terminal. Pipe SQL in (e.g. `cat file.sql | dsql-lint -`) or pass a filename.",
        }
    }
}

/// The parts of the path of a file: what stands in front of the file name, the file name up to its
/// last dot, and what follows that dot.
#[derive(Debug)]
pub struct PathParts {
    pub directory: String,
    pub stem: String,
    pub extension: String,
}

/// The path of the fixed file next to a file.
pub open spec fn fixed_path(input: PathParts) -> Seq<char> {
    let name = input.directory@ + input.stem@ + "-fixed"@;
    if input.extension@.len() == 0 {
        name
    } else {
        name + "."@ + input.extension@
    }
}

/// Names the fixed file next to a file: `-fixed` goes in front of the extension.
pub fn default_output_path(input: &PathParts) -> (r: String)
    ensures
        r@ == fixed_path(*input),
{
    let mut path = input.directory.clone();
    path.append(input.stem.as_str());
    path.append("-fixed");
    if !input.extension.as_str().is_empty() {
        path.append(".");
        path.append(input.extension.as_str());
    }
    path
}

/// Where fixed SQL goes.
#[derive(Debug)]
pub enum FixDest {
    /// To a file.
    File(String),
    /// To the standard output.
    Stdout,
    /// Into the JSON output.
    InlineJson,
}

/// The model of a [`FixDest`].
pub enum Dest {
    File(Seq<char>),
    Stdout,
    InlineJson,
}

impl View for FixDest {
    type V = Dest;

    open spec fn view(&self) -> Dest {
        match *self {
            FixDest::File(path) => Dest::File(path@),
            FixDest::Stdout => Dest::Stdout,
            FixDest::InlineJson => Dest::InlineJson,
        }
    }
}

/// Where the fixed SQL of an input goes: to the output file of the arguments, else to the file next
/// to the input, else to where the output goes.
pub open spec fn fix_dest(args: Args, source: InputSource, path: PathParts) -> Dest {
    match (args.output, source) {
        (Some(output), _) => Dest::File(output@),
        (None, InputSource::File(_)) => Dest::File(fixed_path(path)),
        (None, InputSource::Stdin) => match args.format {
            OutputFormat::Json => Dest::InlineJson,
            OutputFormat::Text => Dest::Stdout,
        },
    }
}

/// Decides where the fixed SQL of an input goes. `path` holds the parts of its path, where it is a
/// file.
pub fn compute_fix_dest(args: &Args, src: &InputSource, path: &PathParts) -> (r: FixDest)
    ensures
        r@ == fix_dest(*args, *src, *path),
{
    match (&args.output, src) {
        (Some(output), _) => FixDest::File(output.clone()),
        (None, InputSource::File(_)) => FixDest::File(default_output_path(path)),
        (None, InputSource::Stdin) => match args.format {
            OutputFormat::Json => FixDest::InlineJson,
            OutputFormat::Text => FixDest::Stdout,
        },
    }
}

/// What the file system says of the paths of an input and of its output.
#[derive(Clone, Copy, PartialEq, Eq, Structural, Debug)]
pub enum PathCheck {
    /// The input is no longer there.
    InputGone,
    /// The output path names no file.
    NoFileName,
    /// The directory of the output is not there.
    NoDirectory,
    /// Both paths were followed to where they lead; whether they lead to the same file.
    Resolved(bool),
}

/// Decides whether the output would overwrite the input. An input that is gone counts as the same
/// file: better to refuse than to overwrite it.
pub fn same_output_as_input(check: PathCheck) -> (r: bool)
    ensures
        r == (check is InputGone || check == PathCheck::Resolved(true)),
{
    match check {
        PathCheck::InputGone => true,
        PathCheck::NoFileName => false,
        PathCheck::NoDirectory => false,
        PathCheck::Resolved(same) => same,
    }
}

/// What became of an input that was to be linted.
#[derive(Debug)]
pub enum LintOutcome {
    ReadError { display: String, message: String },
    Linted { display: String, diagnostics: Vec<Diagnostic> },
}

/// What became of an input that was to be fixed.
#[derive(Debug)]
pub enum FixOutcome {
    ReadError { display: String, message: String },
    IoError { display: String, message: String },
    Processed {
        display: String,
        /// Whether the input may have held comments.
        had_comments: bool,
        diagnostics: Vec<Diagnostic>,
        fixed_sql: String,
        dest: FixDest,
    },
}

/// Why an input could not be read.
#[derive(Debug)]
pub enum ReadFailure {
    /// What it holds is no UTF-8.
    NotUtf8,
    /// Another reason, in words.
    Other(String),
}

/// The reason why an input could not be read, in words.
pub open spec fn failure_text(source: InputSource, failure: ReadFailure) -> Seq<char> {
    match (failure, source) {
        (ReadFailure::NotUtf8, InputSource::Stdin) => "stdin contained non-UTF-8 bytes"@,
        (ReadFailure::NotUtf8, InputSource::File(_)) => "file contained non-UTF-8 bytes"@,
        (ReadFailure::Other(reason), _) => reason@,
    }
}

/// What is said of an input that could not be read.
pub open spec fn read_error(source: InputSource, failure: ReadFailure) -> Seq<char> {
    "Error reading '"@ + shown(source) + "': "@ + failure_text(source, failure)
}

fn read_error_message(src: &InputSource, failure: &ReadFailure) -> (r: String)
    ensures
        r@ == read_error(*src, *failure),
{
    let mut message = "Error reading '".to_owned();
    message.append(src.display().as_str());
    message.append("': ");
    match (failure, src) {
        (ReadFailure::NotUtf8, InputSource::Stdin) => {
            message.append("stdin contained non-UTF-8 bytes");
        },
        (ReadFailure::NotUtf8, InputSource::File(_)) => {
            message.append("file contained non-UTF-8 bytes");
        },
        (ReadFailure::Other(reason), _) => {
            message.append(reason.as_str());
        },
    }
    message
}

/// Lints an input, given what reading it gave.
pub fn lint_one(src: &InputSource, read: Result<String, ReadFailure>) -> (r: LintOutcome)
    ensures
        match (read, r) {
            (Err(error), LintOutcome::ReadError { display, message }) => {
                &&& display@ == shown(*src)
                &&& message@ == read_error(*src, error)
            },
            (Ok(sql), LintOutcome::Linted { display, diagnostics }) => {
                &&& display@ == shown(*src)
                &&& findings(diagnostics@) == sql_findings(sql@)
            },
            _ => false,
        },
{
    match read {
        Err(error) => LintOutcome::ReadError {
            message: read_error_message(src, &error),
            display: src.display(),
        },
        Ok(sql) => LintOutcome::Linted {
            diagnostics: lint_sql(sql.as_str()),
            display: src.display(),
        },
    }
}

/// Whether SQL may hold comments.
pub open spec fn may_have_comments(sql: Seq<char>) -> bool {
    has_pair(sql, '-', '-') || has_pair(sql, '/', '*')
}

/// What is to be done next about an input that was to be fixed.
#[derive(Debug)]
pub enum FixStep {
    /// Nothing more: this became of it.
    Done(FixOutcome),
    /// The fixed SQL is to be written to the file at `path`; then [`finish_fix`] tells what became
    /// of the input.
    Write {
        display: String,
        had_comments: bool,
        diagnostics: Vec<Diagnostic>,
        fixed_sql: String,
        path: String,
    },
}

/// What became of writing fixed SQL to a file.
#[derive(Debug)]
pub enum WriteOutcome {
    /// The file is the input, so nothing was written.
    SameAsInput,
    /// Nothing was written, for this reason.
    Failed(String),
    /// It was written.
    Written,
}

/// Fixes an input, given what reading it gave.
pub fn fix_one(
    args: &Args,
    src: &InputSource,
    path: &PathParts,
    read: Result<String, ReadFailure>,
) -> (r: FixStep)
    ensures
        match (read, r) {
            (Err(error), FixStep::Done(FixOutcome::ReadError { display, message })) => {
                &&& display@ == shown(*src)
                &&& message@ == read_error(*src, error)
            },
            (
                Ok(sql),
                FixStep::Done(
                    FixOutcome::Processed {
                        display,
                        had_comments,
                        diagnostics,
                        fixed_sql: fixed,
                        dest,
                    },
                ),
            ) => {
                &&& display@ == shown(*src)
                &&& had_comments == may_have_comments(sql@)
                &&& findings(diagnostics@) == fix_findings(sql@)
                &&& fixed@ == fixed_sql(sql@)
                &&& dest@ == fix_dest(*args, *src, *path)
                &&& !(dest is File)
            },
            (
                Ok(sql),
                FixStep::Write {
                    display,
                    had_comments,
                    diagnostics,
                    fixed_sql: fixed,
                    path: target,
                },
            ) => {
                &&& display@ == shown(*src)
                &&& had_comments == may_have_comments(sql@)
                &&& findings(diagnostics@) == fix_findings(sql@)
                &&& fixed@ == fixed_sql(sql@)
                &&& fix_dest(*args, *src, *path) == Dest::File(target@)
            },
            _ => false,
        },
{
    match read {
        Err(error) => FixStep::Done(
            FixOutcome::ReadError {
                message: read_error_message(src, &error),
                display: src.display(),
            },
        ),
        Ok(sql) => {
            let had_comments = contains_pair(sql.as_str(), '-', '-') || contains_pair(
                sql.as_str(),
                '/',
                '*',
            );
            let out = fix_sql(sql.as_str());
            match compute_fix_dest(args, src, path) {
                FixDest::File(target) => FixStep::Write {
                    display: src.display(),
                    had_comments,
                    diagnostics: out.diagnostics,
                    fixed_sql: out.sql,
                    path: target,
                },
                dest => FixStep::Done(
                    FixOutcome::Processed {
                        display: src.display(),
                        had_comments,
                        diagnostics: out.diagnostics,
                        fixed_sql: out.sql,
                        dest,
                    },
                ),
            }
        },
    }
}

/// What is said where the output would overwrite the input.
pub open spec fn same_file_error(path: Seq<char>, display: Seq<char>) -> Seq<char> {
    "Error: output path '"@ + path + "' is the same as input '"@ + display
        + "'. Use a different output path."@
}

/// What is said where the output cannot be written.
pub open spec fn write_error(path: Seq<char>, error: Seq<char>) -> Seq<char> {
    "Error writing '"@ + path + "': "@ + error
}

/// Tells what became of an input, given what became of writing its fixed SQL. A step that asks for
/// no writing has its outcome already.
pub fn finish_fix(step: FixStep, written: WriteOutcome) -> (r: FixOutcome)
    ensures
        match step {
            FixStep::Done(outcome) => r == outcome,
            FixStep::Write {
                display,
                had_comments,
                diagnostics,
                fixed_sql: fixed,
                path,
            } => match written {
                WriteOutcome::SameAsInput => r matches FixOutcome::IoError { display: d, message }
                    && d == display && message@ == same_file_error(path@, display@),
                WriteOutcome::Failed(error) => r matches FixOutcome::IoError { display: d, message }
                    && d == display && message@ == write_error(path@, error@),
                WriteOutcome::Written => r == (FixOutcome::Processed {
                    display,
                    had_comments,
                    diagnostics,
                    fixed_sql: fixed,
                    dest: FixDest::File(path),
                }),
            },
        },
{
    match step {
        FixStep::Done(outcome) => outcome,
        FixStep::Write { display, had_comments, diagnostics, fixed_sql: fixed, path } => {
            match written {
                WriteOutcome::SameAsInput => {
                    let mut message = "Error: output path '".to_owned();
                    message.append(path.as_str());
                    message.append("' is the same as input '");
                    message.append(display.as_str());
                    message.append("'. Use a different output path.");
                    FixOutcome::IoError { display, message }
                },
                WriteOutcome::Failed(error) => {
                    let mut message = "Error writing '".to_owned();
                    message.append(path.as_str());
                    message.append("': ");
                    message.append(error.as_str());
                    FixOutcome::IoError { display, message }
                },
                WriteOutcome::Written => FixOutcome::Processed {
                    display,
                    had_comments,
                    diagnostics,
                    fixed_sql: fixed,
                    dest: FixDest::File(path),
                },
            }
        },
    }
}

/// Fixed SQL never goes to the standard output when the output is JSON.
pub proof fn json_keeps_stdout(args: Args, source: InputSource, path: PathParts)
    requires
        args.format is Json,
    ensures
        !(fix_dest(args, source, path) is Stdout),
{
}

} // verus!
