//! What the command line asks for: the arguments of each command, and what is to be done with
//! them before anything is read or run.

use vstd::prelude::*;
use vstd::string::StringExecFns;
use vstd::string::StrSliceExecFns;
use vstd::utf8::encode_utf8;
use crate::repl::ModeFlagOverride;

verus! {

/// The arguments of `read`.
#[derive(Debug, Clone)]
pub struct ReadArgs {
    /// Print a step-by-step table of operations instead of executing.
    pub debug: bool,
    /// Read the code from this file instead of the command line.
    pub file: Option<String>,
    /// The parts of the code, to be joined without anything between them.
    pub code: Vec<String>,
    /// Wall-clock timeout in milliseconds.
    pub timeout_ms: Option<u64>,
    /// Maximum number of steps.
    pub max_steps: Option<u64>,
    /// Show the help.
    pub help: bool,
}

/// The arguments of `write`.
#[derive(Debug, Clone)]
pub struct WriteArgs {
    /// Treat input as raw bytes.
    pub bytes: bool,
    /// Read the input from this file.
    pub file: Option<String>,
    /// The words of the text, to be joined with one space between any two.
    pub text: Vec<String>,
    /// Show the help.
    pub help: bool,
}

/// The arguments of `repl`.
#[derive(Debug, Clone, Copy, PartialEq, Eq, Structural)]
pub struct ReplArgs {
    /// Force the bare mode.
    pub bare: bool,
    /// Force the editor.
    pub editor: bool,
    /// Show the help.
    pub help: bool,
}

/// The arguments of `ide`.
#[derive(Debug, Clone)]
pub struct IdeArgs {
    /// A file to load on startup.
    pub filename: Option<String>,
    /// Vi keys instead of Emacs keys.
    pub vi_mode: bool,
    /// Show the help.
    pub help: bool,
}

/// The arguments of `tui`.
#[derive(Debug, Clone)]
pub struct TuiArgs {
    /// A file to load on startup.
    pub filename: Option<String>,
    /// Show the help.
    pub help: bool,
}

/// The texts one behind the other, with `between` between any two.
pub open spec fn joined_with(parts: Seq<Seq<char>>, between: Seq<char>) -> Seq<char>
    decreases parts.len(),
{
    if parts.len() == 0 {
        Seq::empty()
    } else if parts.len() == 1 {
        parts[0]
    } else {
        joined_with(parts.drop_last(), between) + between + parts.last()
    }
}

/// The views of the texts.
pub open spec fn text_views(parts: Seq<String>) -> Seq<Seq<char>> {
    Seq::new(parts.len(), |i: int| parts[i]@)
}

/// Joins texts with `between` between any two.
pub fn join(parts: &Vec<String>, between: &str) -> (text: String)
    ensures
        text@ == joined_with(text_views(parts@), between@),
{
    let n = parts.len();
    let mut text = String::new();
    let mut i: usize = 0;
    let ghost all = text_views(parts@);
    assert(all.take(0) =~= Seq::<Seq<char>>::empty());
    while i < n
        invariant
            i <= n,
            n == parts@.len(),
            all == text_views(parts@),
            text@ == joined_with(all.take(i as int), between@),
        decreases n - i,
    {
        if i > 0 {
            text.append(between);
        }
        text.append(parts[i].as_str());
        proof {
            let now = all.take(i + 1);
            assert(now.drop_last() =~= all.take(i as int));
            assert(now.last() == parts@[i as int]@);
            if i == 0 {
                assert(text@ =~= parts@[0]@);
            }
        }
        i = i + 1;
    }
    assert(all.take(n as int) =~= all);
    text
}

/// What `read` is to do.
#[derive(Debug, Clone, PartialEq, Eq)]
pub enum ReadPlan {
    /// Show the help and leave with success.
    Help,
    /// Neither a file nor code was given: show the usage and leave with code 2.
    Usage,
    /// Both a file and code were given: say so, show the usage and leave with code 2.
    Conflict,
    /// Run the code in this file.
    File(String),
    /// Run this code.
    Code(String),
}

/// What `read` is to do with its arguments: help goes first, then the arguments must name
/// exactly one source of code.
pub fn plan_read(args: &ReadArgs) -> (plan: ReadPlan)
    ensures
        match plan {
            ReadPlan::Help => args.help,
            ReadPlan::Usage => !args.help && args.file is None && args.code@.len() == 0,
            ReadPlan::Conflict => !args.help && args.file is Some && args.code@.len() > 0,
            ReadPlan::File(path) => !args.help && args.code@.len() == 0 && args.file == Some(path),
            ReadPlan::Code(code) => !args.help && args.file is None && args.code@.len() > 0
                && code@ == joined_with(text_views(args.code@), Seq::empty()),
        },
{
    if args.help {
        return ReadPlan::Help;
    }
    match &args.file {
        None => {
            if args.code.len() == 0 {
                ReadPlan::Usage
            } else {
                let code = join(&args.code, "");
                proof {
                    reveal_strlit("");
                    assert(""@ =~= Seq::<char>::empty());
                }
                ReadPlan::Code(code)
            }
        },
        Some(path) => {
            if args.code.len() > 0 {
                ReadPlan::Conflict
            } else {
                ReadPlan::File(path.clone())
            }
        },
    }
}

/// The step ceiling handed to the interpreter by `read`: the number asked for, cut to the
/// machine's word, or the largest number of steps that can be counted.
pub fn step_ceiling(max_steps: Option<u64>) -> (ceiling: usize)
    ensures
        ceiling == match max_steps {
            Some(steps) => steps as usize,
            None => usize::MAX,
        },
{
    match max_steps {
        Some(steps) => #[verifier::truncate]
        (steps as usize),
        None => usize::MAX,
    }
}

/// What `write` is to do.
#[derive(Debug, Clone, PartialEq, Eq)]
pub enum WritePlan {
    /// Show the help and leave with success.
    Help,
    /// Both a file and text were given: say so, show the usage and leave with code 2.
    Conflict,
    /// Encode the bytes of this file.
    FileBytes(String),
    /// Encode the text of this file, which must be UTF-8.
    FileText(String),
    /// Encode these bytes.
    Text(Vec<u8>),
    /// Encode the bytes of the standard input.
    StdinBytes,
    /// Encode the text of the standard input, which must be UTF-8.
    StdinText,
}

/// What `write` is to do with its arguments: help goes first; a file and text exclude each
/// other; text on the command line goes before the standard input.
pub fn plan_write(args: &WriteArgs) -> (plan: WritePlan)
    ensures
        match plan {
            WritePlan::Help => args.help,
            WritePlan::Conflict => !args.help && args.file is Some && args.text@.len() > 0,
            WritePlan::FileBytes(path) => !args.help && args.text@.len() == 0 && args.bytes
                && args.file == Some(path),
            WritePlan::FileText(path) => !args.help && args.text@.len() == 0 && !args.bytes
                && args.file == Some(path),
            WritePlan::Text(bytes) => !args.help && args.file is None && args.text@.len() > 0
                && bytes@ == encode_utf8(joined_with(text_views(args.text@), seq![' '])),
            WritePlan::StdinBytes => !args.help && args.file is None && args.text@.len() == 0
                && args.bytes,
            WritePlan::StdinText => !args.help && args.file is None && args.text@.len() == 0
                && !args.bytes,
        },
{
    if args.help {
        return WritePlan::Help;
    }
    match &args.file {
        Some(path) => {
            if args.text.len() > 0 {
                WritePlan::Conflict
            } else if args.bytes {
                WritePlan::FileBytes(path.clone())
            } else {
                WritePlan::FileText(path.clone())
            }
        },
        None => {
            if args.text.len() > 0 {
                let text = join(&args.text, " ");
                proof {
                    reveal_strlit(" ");
                    assert(" "@ =~= seq![' ']);
                }
                WritePlan::Text(text.as_str().as_bytes_vec())
            } else if args.bytes {
                WritePlan::StdinBytes
            } else {
                WritePlan::StdinText
            }
        },
    }
}

/// The mode that the flags of `repl` ask for; `--bare` goes first.
pub fn mode_flag(args: ReplArgs) -> (flag: ModeFlagOverride)
    ensures
        flag == if args.bare {
            ModeFlagOverride::Bare
        } else if args.editor {
            ModeFlagOverride::Editor
        } else {
            ModeFlagOverride::Unset
        },
{
    if args.bare {
        ModeFlagOverride::Bare
    } else if args.editor {
        ModeFlagOverride::Editor
    } else {
        ModeFlagOverride::Unset
    }
}

/// What `ide` is to do.
#[derive(Debug, Clone, PartialEq, Eq)]
pub enum IdePlan {
    /// Show the help and leave with success.
    Help,
    /// A file and the help were asked for together: say so and leave with code 1.
    Conflict,
    /// Start the editor, with this file if one is named.
    Start(Option<String>),
}

/// What `ide` is to do with its arguments: a file and the help exclude each other.
pub fn plan_ide(args: &IdeArgs) -> (plan: IdePlan)
    ensures
        match plan {
            IdePlan::Help => args.help && args.filename is None,
            IdePlan::Conflict => args.help && args.filename is Some,
            IdePlan::Start(filename) => !args.help && filename == args.filename,
        },
{
    match &args.filename {
        Some(name) => {
            if args.help {
                IdePlan::Conflict
            } else {
                IdePlan::Start(Some(name.clone()))
            }
        },
        None => {
            if args.help {
                IdePlan::Help
            } else {
                IdePlan::Start(None)
            }
        },
    }
}

} // verus!
