//! Configuration and argument interpretation.
//!
//! The filter is driven by up to two positional arguments and one
//! flag: the input name (a single dash, also the default, selects
//! standard input), an optional output file name, and a counting
//! toggle written `-c` or `--count`.  [`get_args`] interprets a plain
//! argument list; opening the named files is left to the caller.

use vstd::prelude::*;

use vstd::string::StrSliceExecFns;

verus! {

/// What one invocation of the filter should do: where to read, where
/// to write, and whether to prefix each record with its run length.
#[derive(Debug)]
pub struct Config {
    /// Input name; a single dash means standard input.
    pub in_file: String,
    /// Output file name; absent means standard output.
    pub out_file: Option<String>,
    /// Whether to emit the count field before each record.
    pub count: bool,
}

/// The abstract result of interpreting an argument list.
pub struct ParsedArgs {
    /// First positional argument, if any.
    pub in_file: Option<Seq<char>>,
    /// Second positional argument, if any.
    pub out_file: Option<Seq<char>>,
    /// Whether a counting flag occurred.
    pub count: bool,
}

/// An argument that cannot be interpreted, at the abstract level.
pub enum ArgIssue {
    /// A dash-led argument that is neither a counting flag nor the
    /// bare dash naming standard input.
    UnknownOption(Seq<char>),
    /// A third positional argument.
    ExtraOperand(Seq<char>),
}

/// An argument that cannot be interpreted, carrying the offending
/// argument.
#[derive(Debug)]
pub enum ArgError {
    /// A dash-led argument that is neither a counting flag nor the
    /// bare dash naming standard input.
    UnknownOption(String),
    /// A third positional argument.
    ExtraOperand(String),
}

impl ArgError {
    /// The abstract issue this error reports.
    pub open spec fn issue(self) -> ArgIssue {
        match self {
            ArgError::UnknownOption(s) => ArgIssue::UnknownOption(s@),
            ArgError::ExtraOperand(s) => ArgIssue::ExtraOperand(s@),
        }
    }

    /// The argument the error complains about.
    pub fn argument(&self) -> (a: &String)
        ensures
            match self.issue() {
                ArgIssue::UnknownOption(s) => a@ == s,
                ArgIssue::ExtraOperand(s) => a@ == s,
            },
    {
        match self {
            ArgError::UnknownOption(s) => s,
            ArgError::ExtraOperand(s) => s,
        }
    }
}

/// An argument that turns counting on.
pub open spec fn is_count_flag(a: Seq<char>) -> bool {
    a == "-c"@ || a == "--count"@
}

/// An argument that looks like an option: it starts with a dash and
/// is not the bare dash that names standard input.
pub open spec fn is_option_like(a: Seq<char>) -> bool {
    a.len() >= 2 && a[0] == '-'
}

/// The interpretation state before any argument is seen.
pub open spec fn no_args() -> ParsedArgs {
    ParsedArgs { in_file: None, out_file: None, count: false }
}

/// Interprets the arguments from position `i` on, starting from the
/// accumulated state `acc`: counting flags set the toggle, any other
/// dash-led argument is refused, and the first two remaining arguments
/// become the input and output names, a third being refused.
pub open spec fn parse_from(args: Seq<Seq<char>>, i: int, acc: ParsedArgs) -> Result<
    ParsedArgs,
    ArgIssue,
>
    decreases args.len() - i,
{
    if i < 0 || i >= args.len() {
        Ok(acc)
    } else {
        let a = args[i];
        if is_count_flag(a) {
            parse_from(
                args,
                i + 1,
                ParsedArgs { in_file: acc.in_file, out_file: acc.out_file, count: true },
            )
        } else if is_option_like(a) {
            Err(ArgIssue::UnknownOption(a))
        } else if acc.in_file is None {
            parse_from(
                args,
                i + 1,
                ParsedArgs { in_file: Some(a), out_file: acc.out_file, count: acc.count },
            )
        } else if acc.out_file is None {
            parse_from(
                args,
                i + 1,
                ParsedArgs { in_file: acc.in_file, out_file: Some(a), count: acc.count },
            )
        } else {
            Err(ArgIssue::ExtraOperand(a))
        }
    }
}

/// The interpretation of a whole argument list.
pub open spec fn parse_args(args: Seq<Seq<char>>) -> Result<ParsedArgs, ArgIssue> {
    parse_from(args, 0, no_args())
}

/// Builds the configuration from the argument list (the program name
/// excluded): positionals name the input and the output, `-c` or
/// `--count` turns counting on, the input name defaults to a dash, and
/// the first uninterpretable argument is reported.
pub fn get_args(args: &Vec<String>) -> (r: Result<Config, ArgError>)
    ensures
        match parse_args(args.deep_view()) {
            Ok(p) => r is Ok && {
                let c = r.unwrap();
                &&& c.in_file@ == if p.in_file is Some {
                    p.in_file.unwrap()
                } else {
                    "-"@
                }
                &&& c.out_file.deep_view() == p.out_file
                &&& c.count == p.count
            },
            Err(issue) => r is Err && r.unwrap_err().issue() == issue,
        },
{
    let short_flag: String = "-c".to_owned();
    let long_flag: String = "--count".to_owned();
    let mut in_file: Option<String> = None;
    let mut out_file: Option<String> = None;
    let mut count: bool = false;
    let mut i: usize = 0;
    while i < args.len()
        invariant
            i <= args@.len(),
            short_flag@ == "-c"@,
            long_flag@ == "--count"@,
            parse_args(args.deep_view()) == parse_from(
                args.deep_view(),
                i as int,
                ParsedArgs {
                    in_file: in_file.deep_view(),
                    out_file: out_file.deep_view(),
                    count: count,
                },
            ),
        decreases args@.len() - i,
    {
        let ghost prev = ParsedArgs {
            in_file: in_file.deep_view(),
            out_file: out_file.deep_view(),
            count: count,
        };
        let a = &args[i];
        proof {
            assert(args.deep_view()[i as int] == a@);
        }
        if *a == short_flag || *a == long_flag {
            count = true;
        } else if a.as_str().unicode_len() >= 2 && a.as_str().get_char(0) == '-' {
            proof {
                assert(is_option_like(a@));
            }
            return Err(ArgError::UnknownOption(a.clone()));
        } else if in_file.is_none() {
            proof {
                assert(!is_option_like(a@));
            }
            in_file = Some(a.clone());
        } else if out_file.is_none() {
            out_file = Some(a.clone());
        } else {
            return Err(ArgError::ExtraOperand(a.clone()));
        }
        proof {
            let next = ParsedArgs {
                in_file: in_file.deep_view(),
                out_file: out_file.deep_view(),
                count: count,
            };
            assert(parse_from(args.deep_view(), i as int, prev) == parse_from(
                args.deep_view(),
                i + 1,
                next,
            ));
        }
        i = i + 1;
    }
    let in_name: String = match in_file {
        Some(name) => name,
        None => "-".to_owned(),
    };
    Ok(Config { in_file: in_name, out_file, count })
}

} // verus!
