use vstd::prelude::*;

use crate::import::{ImportFormat, same_text};
use crate::storage::{PasswordEntry, views};
use crate::text::{chars_of, owned, string_from_range};

verus! {

/// What the command line asks for.
#[derive(Debug, Clone, PartialEq, Eq)]
pub enum Command {
    /// Run the interactive manager.
    Interactive,
    /// Print the usage text.
    Help,
    /// Import records; holds the arguments after `import`.
    Import(Vec<String>),
}

/// What `import` was asked to do.
#[derive(Debug, Clone, PartialEq, Eq)]
pub enum ImportCommand {
    /// Print the import usage text.
    Help,
    /// Import the file at `path`.
    Run { path: String, format: ImportFormat, replace: bool },
}

/// Why the `import` arguments were refused.
#[derive(Debug, Clone, PartialEq, Eq)]
pub enum CliError {
    /// `--format` is the last argument.
    MissingFormatValue,
    /// The value after `--format` is not a known format.
    UnsupportedFormat(String),
    /// An argument starts with `-` but is no known option.
    UnknownOption(String),
    /// More than one file was named.
    TooManyPaths,
    /// No file was named.
    MissingPath,
}

/// The views of a sequence of strings.
pub open spec fn arg_views(args: Seq<String>) -> Seq<Seq<char>> {
    args.map_values(|s: String| s@)
}

/// Reads the first argument: `import`, `--help` or `-h`, or anything else.
pub fn parse_command(args: &Vec<String>) -> (r: Command)
    ensures
        args@.len() > 0 && args@[0]@ == "import"@ ==> (r matches Command::Import(rest)
            && arg_views(rest@) == arg_views(args@).skip(1)),
        args@.len() > 0 && args@[0]@ != "import"@ && (args@[0]@ == "--help"@ || args@[0]@ == "-h"@)
            ==> r == Command::Help,
        args@.len() == 0 || (args@[0]@ != "import"@ && args@[0]@ != "--help"@ && args@[0]@ != "-h"@)
            ==> r == Command::Interactive,
{
    if args.len() == 0 {
        return Command::Interactive;
    }
    if same_text(args[0].as_str(), "import") {
        let mut rest: Vec<String> = Vec::new();
        let mut i: usize = 1;
        while i < args.len()
            invariant
                1 <= i <= args.len(),
                arg_views(rest@) == arg_views(args@).subrange(1, i as int),
            decreases args.len() - i,
        {
            let ghost before = arg_views(rest@);
            let item = args[i].clone();
            assert(item@ == args@[i as int]@);
            rest.push(item);
            assert(arg_views(rest@) =~= before.push(args@[i as int]@));
            assert(arg_views(args@).subrange(1, i + 1) =~= arg_views(args@).subrange(1, i as int).push(args@[i as int]@));
            i = i + 1;
        }
        assert(arg_views(args@).subrange(1, args@.len() as int) =~= arg_views(args@).skip(1));
        return Command::Import(rest);
    }
    if same_text(args[0].as_str(), "--help") || same_text(args[0].as_str(), "-h") {
        Command::Help
    } else {
        Command::Interactive
    }
}

/// An argument that looks like an option.
pub open spec fn is_option(arg: Seq<char>) -> bool {
    arg.len() > 0 && arg[0] == '-'
}

/// The format a name stands for.
pub open spec fn format_named(name: Seq<char>) -> Option<ImportFormat> {
    if name == "csv"@ {
        Some(ImportFormat::Csv)
    } else if name == "tsv"@ {
        Some(ImportFormat::Tsv)
    } else {
        None
    }
}

/// The outcome of reading the `import` arguments, as plain text.
pub enum ImportArgsOutcome {
    Help,
    Run { path: Seq<char>, format: ImportFormat, replace: bool },
    MissingFormatValue,
    UnsupportedFormat(Seq<char>),
    UnknownOption(Seq<char>),
    TooManyPaths,
    MissingPath,
}

/// Reading the `import` arguments from position `i`, with the file, format and
/// replace flag seen so far; arguments are read left to right and the first help
/// request or error ends the reading.
pub open spec fn scan_import_args(
    args: Seq<Seq<char>>,
    i: int,
    path: Option<Seq<char>>,
    format: ImportFormat,
    replace: bool,
) -> ImportArgsOutcome
    decreases args.len() - i,
{
    if i >= args.len() {
        match path {
            Some(p) => ImportArgsOutcome::Run { path: p, format, replace },
            None => ImportArgsOutcome::MissingPath,
        }
    } else if i < 0 {
        ImportArgsOutcome::MissingPath
    } else {
        let arg = args[i];
        if arg == "--format"@ {
            if i + 1 >= args.len() {
                ImportArgsOutcome::MissingFormatValue
            } else {
                match format_named(args[i + 1]) {
                    Some(f) => scan_import_args(args, i + 2, path, f, replace),
                    None => ImportArgsOutcome::UnsupportedFormat(args[i + 1]),
                }
            }
        } else if arg == "--replace"@ {
            scan_import_args(args, i + 1, path, format, true)
        } else if arg == "--help"@ || arg == "-h"@ {
            ImportArgsOutcome::Help
        } else if is_option(arg) {
            ImportArgsOutcome::UnknownOption(arg)
        } else if path is Some {
            ImportArgsOutcome::TooManyPaths
        } else {
            scan_import_args(args, i + 1, Some(arg), format, replace)
        }
    }
}

/// What the result of `parse_import_args` says, as plain text.
pub open spec fn import_outcome(r: Result<ImportCommand, CliError>) -> ImportArgsOutcome {
    match r {
        Ok(ImportCommand::Help) => ImportArgsOutcome::Help,
        Ok(ImportCommand::Run { path, format, replace }) => ImportArgsOutcome::Run { path: path@, format, replace },
        Err(CliError::MissingFormatValue) => ImportArgsOutcome::MissingFormatValue,
        Err(CliError::UnsupportedFormat(v)) => ImportArgsOutcome::UnsupportedFormat(v@),
        Err(CliError::UnknownOption(v)) => ImportArgsOutcome::UnknownOption(v@),
        Err(CliError::TooManyPaths) => ImportArgsOutcome::TooManyPaths,
        Err(CliError::MissingPath) => ImportArgsOutcome::MissingPath,
    }
}

fn starts_with_dash(value: &str) -> (r: bool)
    ensures
        r == is_option(value@),
{
    let chars = chars_of(value);
    chars.len() > 0 && chars[0] == '-'
}

/// Reads the arguments after `import`: `--format csv|tsv`, `--replace`, `--help` or
/// `-h`, and one file path. The format is CSV unless given.
pub fn parse_import_args(args: &Vec<String>) -> (r: Result<ImportCommand, CliError>)
    ensures
        import_outcome(r) == scan_import_args(arg_views(args@), 0, None, ImportFormat::Csv, false),
{
    proof {
        reveal_strlit("csv");
        reveal_strlit("tsv");
        assert("csv"@[0] != "tsv"@[0]);
    }
    let ghost views = arg_views(args@);
    let mut path: Option<String> = None;
    let mut format = ImportFormat::Csv;
    let mut replace = false;
    let mut index: usize = 0;
    while index < args.len()
        invariant
            index <= args.len(),
            views == arg_views(args@),
            scan_import_args(views, 0, None, ImportFormat::Csv, false) == scan_import_args(
                views,
                index as int,
                match path {
                    Some(p) => Some(p@),
                    None => None,
                },
                format,
                replace,
            ),
        decreases args.len() - index,
    {
        let arg = args[index].as_str();
        assert(arg@ == views[index as int]);
        if same_text(arg, "--format") {
            if index + 1 >= args.len() {
                return Err(CliError::MissingFormatValue);
            }
            let value = args[index + 1].as_str();
            assert(value@ == views[index + 1]);
            match ImportFormat::parse(value) {
                Ok(f) => format = f,
                Err(_) => return Err(CliError::UnsupportedFormat(owned(value))),
            }
            index = index + 2;
        } else if same_text(arg, "--replace") {
            replace = true;
            index = index + 1;
        } else if same_text(arg, "--help") || same_text(arg, "-h") {
            return Ok(ImportCommand::Help);
        } else if starts_with_dash(arg) {
            return Err(CliError::UnknownOption(owned(arg)));
        } else {
            if path.is_some() {
                return Err(CliError::TooManyPaths);
            }
            path = Some(owned(arg));
            index = index + 1;
        }
    }
    match path {
        Some(p) => Ok(ImportCommand::Run { path: p, format, replace }),
        None => Err(CliError::MissingPath),
    }
}

/// The characters `trim_end_matches(['\r', '\n'])` removes.
pub open spec fn is_line_break(c: char) -> bool {
    c == '\r' || c == '\n'
}

/// The text without its trailing carriage returns and line feeds.
pub open spec fn strip_line_breaks(s: Seq<char>) -> Seq<char>
    decreases s.len(),
{
    if s.len() > 0 && is_line_break(s.last()) {
        strip_line_breaks(s.drop_last())
    } else {
        s
    }
}

proof fn lemma_strip_take(s: Seq<char>, j: int)
    requires
        0 < j <= s.len(),
        is_line_break(s[j - 1]),
    ensures
        strip_line_breaks(s.take(j)) == strip_line_breaks(s.take(j - 1)),
{
    assert(s.take(j).drop_last() =~= s.take(j - 1));
    assert(s.take(j).last() == s[j - 1]);
}

/// The master password as typed at the prompt: trailing line breaks removed; `None`
/// when nothing is left.
pub fn normalize_master_key(raw: &str) -> (r: Option<String>)
    ensures
        strip_line_breaks(raw@).len() == 0 ==> r is None,
        strip_line_breaks(raw@).len() > 0 ==> (r matches Some(k) && k@ == strip_line_breaks(raw@)),
{
    let chars = chars_of(raw);
    let mut end = chars.len();
    assert(raw@.take(end as int) =~= raw@);
    while end > 0 && (chars[end - 1] == '\r' || chars[end - 1] == '\n')
        invariant
            end <= chars@.len(),
            chars@ == raw@,
            strip_line_breaks(raw@) == strip_line_breaks(raw@.take(end as int)),
        decreases end,
    {
        proof {
            lemma_strip_take(raw@, end as int);
        }
        end = end - 1;
    }
    if end == 0 {
        assert(raw@.take(0) =~= Seq::<char>::empty());
        return None;
    }
    let key = string_from_range(&chars, 0, end);
    assert(raw@.take(end as int) =~= chars@.subrange(0, end as int));
    assert(raw@.take(end as int).last() == raw@[end - 1]);
    assert(strip_line_breaks(raw@.take(end as int)) == raw@.take(end as int));
    Some(key)
}

/// Adds imported records after the existing ones; also returns how many were added.
pub fn combine_entries(existing: Vec<PasswordEntry>, imported: Vec<PasswordEntry>) -> (r: (Vec<PasswordEntry>, usize))
    ensures
        r.0@ == existing@ + imported@,
        r.1 == imported@.len(),
{
    let mut entries = existing;
    let mut imported = imported;
    let added = imported.len();
    let ghost total = entries@ + imported@;
    entries.append(&mut imported);
    assert(entries@ =~= total);
    (entries, added)
}

} // verus!
