//! The command line: which file to compile and how far to run the pipeline.
use vstd::prelude::*;
use vstd::string::*;
use vstd::utf8::*;

use crate::parser::bytes_equal;

verus! {

/// How far through the pipeline to run; the whole build by default.
#[derive(Debug, Clone, Copy, PartialEq, Eq, Structural)]
pub enum CompilationMode {
    /// Stop after lexing.
    Lex,
    /// Stop after parsing.
    Parse,
    /// Stop after lowering to the source IR.
    Tacky,
    /// Stop after lowering to the target IR; no file is written.
    Codegen,
    /// Write the assembly file.
    NakedAssembly,
    /// Assemble and link an executable.
    Full,
}

/// The parsed command line.
#[derive(Debug, Clone, PartialEq, Eq)]
pub struct Args {
    pub file: String,
    pub mode: CompilationMode,
}

impl Args {
    pub fn default() -> (r: Args)
        ensures
            r.file@ == Seq::<char>::empty(),
            r.mode == CompilationMode::Full,
    {
        Args { file: String::new(), mode: CompilationMode::Full }
    }
}

#[derive(Debug, Clone, Copy, PartialEq, Eq, Structural)]
pub enum CliError {
    /// No file argument was given.
    NoFileArg,
    /// The file argument names no existing file.
    NoSuchFile,
}

impl CliError {
    pub open spec fn spec_message(self) -> Seq<char> {
        match self {
            CliError::NoFileArg => "No file was provided"@,
            CliError::NoSuchFile => "File doesn't exist"@,
        }
    }

    pub fn message(&self) -> (r: &'static str)
        ensures
            r@ == self.spec_message(),
    {
        match self {
            CliError::NoFileArg => "No file was provided",
            CliError::NoSuchFile => "File doesn't exist",
        }
    }
}

/// The mode that a flag selects, if the argument is a flag.
pub open spec fn flag_mode(a: Seq<char>) -> Option<CompilationMode> {
    if a == "--lex"@ {
        Some(CompilationMode::Lex)
    } else if a == "--parse"@ {
        Some(CompilationMode::Parse)
    } else if a == "--tacky"@ {
        Some(CompilationMode::Tacky)
    } else if a == "--codegen"@ {
        Some(CompilationMode::Codegen)
    } else if a == "-S"@ {
        Some(CompilationMode::NakedAssembly)
    } else if a == "--full"@ {
        Some(CompilationMode::Full)
    } else {
        None
    }
}

/// The mode of the first flag at or after `i`, or `Full` if there is none.
pub open spec fn first_mode(a: Seq<Seq<char>>, i: int) -> CompilationMode
    decreases a.len() - i,
{
    if i < 0 || i >= a.len() {
        CompilationMode::Full
    } else {
        match flag_mode(a[i]) {
            Some(m) => m,
            None => first_mode(a, i + 1),
        }
    }
}

/// The first argument at or after `i` that is not a flag, or the empty text.
pub open spec fn first_file(a: Seq<Seq<char>>, i: int) -> Seq<char>
    decreases a.len() - i,
{
    if i < 0 || i >= a.len() {
        Seq::empty()
    } else if flag_mode(a[i]) is None {
        a[i]
    } else {
        first_file(a, i + 1)
    }
}

/// The texts of the arguments.
pub open spec fn arg_texts(args: Seq<String>) -> Seq<Seq<char>> {
    Seq::new(args.len(), |i: int| args[i]@)
}

fn same_text(a: &str, b: &str) -> (r: bool)
    ensures
        r == (a@ == b@),
{
    let r = bytes_equal(a.as_bytes(), b.as_bytes());
    proof {
        broadcast use encode_utf8_decode_utf8;

        if r {
            assert(decode_utf8(encode_utf8(a@)) == decode_utf8(encode_utf8(b@)));
        }
    }
    r
}

/// The mode that a flag selects, if the argument is a flag.
pub fn mode_of_flag(arg: &str) -> (r: Option<CompilationMode>)
    ensures
        r == flag_mode(arg@),
{
    if same_text(arg, "--lex") {
        Some(CompilationMode::Lex)
    } else if same_text(arg, "--parse") {
        Some(CompilationMode::Parse)
    } else if same_text(arg, "--tacky") {
        Some(CompilationMode::Tacky)
    } else if same_text(arg, "--codegen") {
        Some(CompilationMode::Codegen)
    } else if same_text(arg, "-S") {
        Some(CompilationMode::NakedAssembly)
    } else if same_text(arg, "--full") {
        Some(CompilationMode::Full)
    } else {
        None
    }
}

/// Reads the command line, program name first. The first flag picks the
/// mode and the first other argument names the file; without a file the
/// command line is refused. Whether the file exists is for the caller to
/// check.
pub fn parse_args(args: Vec<String>) -> (r: Result<Args, CliError>)
    ensures
        ({
            let a = arg_texts(args@);
            let file = first_file(a, 1);
            &&& file.len() == 0 ==> r == Err::<Args, CliError>(CliError::NoFileArg)
            &&& file.len() > 0 ==> (r matches Ok(parsed) && parsed.file@ == file && parsed.mode
                == first_mode(a, 1))
        }),
{
    let ghost a = arg_texts(args@);
    let mut constructed = Args::default();
    let mut i: usize = args.len();
    while i > 1
        invariant
            a == arg_texts(args@),
            0 <= i <= args@.len(),
            i == 0 ==> args@.len() == 0,
            constructed.mode == first_mode(a, i as int),
            constructed.file@ == first_file(a, i as int),
        decreases i,
    {
        i = i - 1;
        let arg = args[i].as_str();
        match mode_of_flag(arg) {
            Some(mode) => {
                constructed.mode = mode;
            },
            None => {
                constructed.file = arg.to_owned();
            },
        }
    }
    if i == 0 {
        assert(first_mode(a, 1) == CompilationMode::Full);
        assert(first_file(a, 1) == Seq::<char>::empty());
        assert(first_mode(a, 0) == CompilationMode::Full);
        assert(first_file(a, 0) == Seq::<char>::empty());
    }
    if constructed.file.as_str().is_empty() {
        return Err(CliError::NoFileArg);
    }
    Ok(constructed)
}

/// The usage text of the command line.
pub fn usage_text() -> (r: &'static str)
    ensures
        r@ == "Usage:\nccompiler [file] [options]\n\nOptions:\n  --lex: Only runs the lexer\n  --parse: Only runs the parser\n  --tacky: Runs up to tacky lowering\n  --codegen: Runs up to codegen but doesn't emit any file\n  -S: Emits naked assembly file\n  --full: Runs the whole pipeline and outputs final executable\n"@,
{
    "Usage:\nccompiler [file] [options]\n\nOptions:\n  --lex: Only runs the lexer\n  --parse: Only runs the parser\n  --tacky: Runs up to tacky lowering\n  --codegen: Runs up to codegen but doesn't emit any file\n  -S: Emits naked assembly file\n  --full: Runs the whole pipeline and outputs final executable\n"
}

} // verus!
