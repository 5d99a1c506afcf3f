//! What holds of every call of the command.

use vstd::prelude::*;

use crate::cli::{
    asked, fix_dest, fixed_path, may_have_comments, read_error, same_file_error, shown, stdin_count,
    write_error, Args, Dest, InputSource, Mode, OutputFormat, PathParts, ReadFailure, UsageError,
    STDIN_ARG,
};
use crate::text::laws::pairs_are_pieces;

verus! {

/// How often the standard input is named: the number of inputs that are the standard input.
pub proof fn stdin_is_counted(files: Seq<InputSource>)
    ensures
        stdin_count(files) == files.filter(|source: InputSource| source is Stdin).len(),
    decreases files.len(),
{
    reveal(Seq::filter);
    if files.len() > 0 {
        stdin_is_counted(files.drop_last());
    }
}

/// Whether arguments ask for something that can be done: there is an input; the standard input is
/// named once at most, and not where it would be typed in; an output file comes with a fix of one
/// input.
pub open spec fn makes_sense(args: Args, stdin_is_terminal: bool) -> bool {
    let stdin = args.files@.filter(|source: InputSource| source is Stdin).len();
    &&& args.files@.len() > 0
    &&& stdin <= 1
    &&& stdin == 1 ==> !stdin_is_terminal
    &&& args.output is Some ==> args.fix && args.files@.len() == 1
}

/// Arguments that make sense are followed: they lint, or they fix where they say so. All others
/// are refused.
pub proof fn sense_is_followed(args: Args, stdin_is_terminal: bool)
    ensures
        asked(args, stdin_is_terminal) is Ok == makes_sense(args, stdin_is_terminal),
        makes_sense(args, stdin_is_terminal) && args.fix ==> asked(args, stdin_is_terminal)
            == Ok::<Mode, UsageError>(Mode::Fix),
        makes_sense(args, stdin_is_terminal) && !args.fix ==> asked(args, stdin_is_terminal)
            == Ok::<Mode, UsageError>(Mode::Lint),
{
    stdin_is_counted(args.files@);
}

/// Each refusal names what is wrong, and of several things the one that is told first: no input,
/// then the standard input named twice, then an output file without a fix, then one output file for
/// several inputs, then a standard input that would be typed in.
pub proof fn refusals_name_the_first_fault(args: Args, stdin_is_terminal: bool)
    ensures
        ({
            let stdin = args.files@.filter(|source: InputSource| source is Stdin).len();
            let told = asked(args, stdin_is_terminal);
            let output = args.output is Some;
            &&& told == Err::<Mode, UsageError>(UsageError::NoFiles) <==> args.files@.len() == 0
            &&& told == Err::<Mode, UsageError>(UsageError::StdinTwice) <==> stdin > 1
            &&& told == Err::<Mode, UsageError>(UsageError::OutputWithoutFix) <==> (
            args.files@.len() > 0 && stdin <= 1 && output && !args.fix)
            &&& told == Err::<Mode, UsageError>(UsageError::OutputForMany) <==> (args.files@.len()
                > 1 && stdin <= 1 && output && args.fix)
            &&& told == Err::<Mode, UsageError>(UsageError::StdinIsTerminal) <==> (stdin == 1
                && stdin_is_terminal && (!output || (args.fix && args.files@.len() == 1)))
        }),
{
    stdin_is_counted(args.files@);
    if args.files@.len() == 0 {
        reveal(Seq::filter);
    }
}

/// What the user is told of each fault.
pub proof fn refusals_are_worded()
    ensures
        UsageError::NoFiles.text()
            == "Usage: dsql-lint <file.sql> [file2.sql ...] or dsql-lint - (read from stdin)"@,
        UsageError::StdinTwice.text()
            == "Error: '-' (stdin) may appear at most once in the argument list"@,
        UsageError::OutputWithoutFix.text() == "Error: -o/--output requires --fix"@,
        UsageError::OutputForMany.text()
            == "Error: -o/--output can only be used with a single input file"@,
        UsageError::StdinIsTerminal.text()
            == "Error: '-' reads from stdin, but stdin is a terminal. Pipe SQL in (e.g. `cat file.sql | dsql-lint -`) or pass a filename."@,
{
}

/// A fixed file stands in the directory of its input, under the name of the input with `-fixed`
/// behind it, and keeps the extension. So it is never the input itself.
pub proof fn fixed_files_stand_beside(input: PathParts)
    ensures
        ({
            let stem = input.directory@ + input.stem@;
            let path = fixed_path(input);
            &&& input.extension@.len() == 0 ==> path == stem + "-fixed"@ && path != stem
            &&& input.extension@.len() > 0 ==> path == stem + "-fixed"@ + "."@ + input.extension@
                && path != stem + "."@ + input.extension@
        }),
{
    reveal_strlit("-fixed");
    reveal_strlit(".");
    assert("-fixed"@.len() == 6);
}

/// Fixed SQL goes to the output file that is named; else that of a file goes to a file beside it;
/// else it goes into the JSON output where there is one, and to the standard output where there is
/// none.
pub proof fn fixed_sql_has_one_place(args: Args, source: InputSource, path: PathParts)
    ensures
        args.output matches Some(output) ==> fix_dest(args, source, path) == Dest::File(output@),
        args.output is None && source is File ==> fix_dest(args, source, path) == Dest::File(
            fixed_path(path),
        ),
        args.output is None && source is Stdin && args.format == OutputFormat::Json ==> fix_dest(
            args,
            source,
            path,
        ) == Dest::InlineJson,
        args.output is None && source is Stdin && args.format == OutputFormat::Text ==> fix_dest(
            args,
            source,
            path,
        ) == Dest::Stdout,
{
}

/// SQL may hold comments exactly where it has two hyphens, or a slash and an asterisk, as a piece.
pub proof fn comments_show_by_their_marks(sql: Seq<char>)
    ensures
        may_have_comments(sql) == ((exists|i: int|
            0 <= i <= sql.len() - 2 && #[trigger] sql.subrange(i, i + 2) == "--"@) || (exists|
            i: int,
        |
            0 <= i <= sql.len() - 2 && #[trigger] sql.subrange(i, i + 2) == "/*"@)),
{
    pairs_are_pieces(sql, '-', '-');
    pairs_are_pieces(sql, '/', '*');
    reveal_strlit("--");
    reveal_strlit("/*");
    assert("--"@ =~= seq!['-', '-']);
    assert("/*"@ =~= seq!['/', '*']);
}

/// The standard input is the argument `-`, and is shown as `<stdin>`; a file is shown by its path.
pub proof fn inputs_are_shown(path: String)
    ensures
        STDIN_ARG@ == "-"@,
        shown(InputSource::Stdin) == "<stdin>"@,
        shown(InputSource::File(path)) == path@,
{
}

/// What the user is told where an input cannot be read or an output cannot be written: which one,
/// and why.
pub proof fn failures_are_worded(
    source: InputSource,
    reason: String,
    path: Seq<char>,
    display: Seq<char>,
)
    ensures
        read_error(source, ReadFailure::Other(reason)) == "Error reading '"@ + shown(source)
            + "': "@ + reason@,
        read_error(source, ReadFailure::NotUtf8) == "Error reading '"@ + shown(source) + "': "@
            + if source is Stdin {
            "stdin contained non-UTF-8 bytes"@
        } else {
            "file contained non-UTF-8 bytes"@
        },
        same_file_error(path, display) == "Error: output path '"@ + path
            + "' is the same as input '"@ + display + "'. Use a different output path."@,
        write_error(path, display) == "Error writing '"@ + path + "': "@ + display,
{
}

} // verus!
