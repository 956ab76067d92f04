//! The workloads of the `my-app` application, their command-line form, and
//! the parsing of that command line.

use vstd::prelude::*;

use crate::decimal::{
    dec_str, lemma_dec_str_digits, parse_unsigned, parse_unsigned_spec, u64_to_string,
};
use crate::text::str_eq;

verus! {

/// The Fibonacci index that `my-app` computes when none is given.
pub const DEFAULT_FIB_N: u32 = 45;

/// The Fibonacci index that the local benchmark runs.
pub const DEFAULT_BENCH_FIB_N: u32 = 40;

/// The buffer size that `alloc_touch` uses when none is given (64 MiB).
pub const DEFAULT_ALLOC_BYTES: usize = 67108864;

/// The help text of `my-app`.
pub const APP_USAGE: &'static str = "\
Usage:
  my-app [--workload noop]
  my-app [--workload fib] [--n <u32>]
  my-app --workload alloc_touch [--bytes <usize>] [--hold-ms <u64>]

Defaults:
  workload=fib
  n=45
  bytes=67108864
  hold_ms=0";

/// One workload that the application can run.
#[derive(Clone, Debug, PartialEq, Eq, Structural)]
pub enum Workload {
    Noop,
    Fib { n: u32 },
    AllocTouch { bytes: usize, hold_ms: u64 },
}

/// Why the command line of `my-app` was not accepted.
#[derive(Debug, PartialEq, Eq)]
pub enum ParseAppArgsError {
    HelpRequested,
    Message(String),
}

/// The characters of each argument.
pub open spec fn arg_views(args: Seq<String>) -> Seq<Seq<char>> {
    args.map_values(|s: String| s@)
}

impl Workload {
    /// The workload's name, as it is given after `--workload`.
    pub open spec fn name_spec(self) -> Seq<char> {
        match self {
            Workload::Noop => "noop"@,
            Workload::Fib { .. } => "fib"@,
            Workload::AllocTouch { .. } => "alloc_touch"@,
        }
    }

    /// The workload's parameters as one text.
    pub open spec fn parameter_spec(self) -> Seq<char> {
        match self {
            Workload::Noop => "none"@,
            Workload::Fib { n } => "n="@ + dec_str(n as nat),
            Workload::AllocTouch { bytes, hold_ms } => if hold_ms == 0 {
                "bytes="@ + dec_str(bytes as nat)
            } else {
                "bytes="@ + dec_str(bytes as nat) + ",hold_ms="@ + dec_str(hold_ms as nat)
            },
        }
    }

    /// The command-line arguments that select this workload.
    pub open spec fn cli_args_spec(self) -> Seq<Seq<char>> {
        match self {
            Workload::Noop => seq!["--workload"@, "noop"@],
            Workload::Fib { n } => seq!["--workload"@, "fib"@, "--n"@, dec_str(n as nat)],
            Workload::AllocTouch { bytes, hold_ms } => if hold_ms > 0 {
                seq![
                    "--workload"@,
                    "alloc_touch"@,
                    "--bytes"@,
                    dec_str(bytes as nat),
                    "--hold-ms"@,
                    dec_str(hold_ms as nat),
                ]
            } else {
                seq!["--workload"@, "alloc_touch"@, "--bytes"@, dec_str(bytes as nat)]
            },
        }
    }

    /// The workload's name.
    pub fn name(&self) -> (r: &'static str)
        ensures
            r@ == self.name_spec(),
    {
        match self {
            Workload::Noop => "noop",
            Workload::Fib { .. } => "fib",
            Workload::AllocTouch { .. } => "alloc_touch",
        }
    }

    /// The workload's parameters as one text, such as `n=40`.
    pub fn parameter(&self) -> (r: String)
        ensures
            r@ == self.parameter_spec(),
    {
        match self {
            Workload::Noop => {
                let mut s = String::new();
                s.append("none");
                s
            },
            Workload::Fib { n } => {
                let mut s = String::new();
                s.append("n=");
                let d = u64_to_string(*n as u64);
                s.append(d.as_str());
                s
            },
            Workload::AllocTouch { bytes, hold_ms } => {
                let mut s = String::new();
                s.append("bytes=");
                let d = u64_to_string(*bytes as u64);
                s.append(d.as_str());
                if *hold_ms != 0 {
                    s.append(",hold_ms=");
                    let h = u64_to_string(*hold_ms);
                    s.append(h.as_str());
                }
                s
            },
        }
    }

    /// The command-line arguments that select this workload, in the order
    /// that `my-app` reads them.
    pub fn cli_args(&self) -> (r: Vec<String>)
        ensures
            arg_views(r@) == self.cli_args_spec(),
    {
        let mut args: Vec<String> = Vec::new();
        args.push(owned("--workload"));
        match self {
            Workload::Noop => {
                args.push(owned("noop"));
            },
            Workload::Fib { n } => {
                args.push(owned("fib"));
                args.push(owned("--n"));
                args.push(u64_to_string(*n as u64));
            },
            Workload::AllocTouch { bytes, hold_ms } => {
                args.push(owned("alloc_touch"));
                args.push(owned("--bytes"));
                args.push(u64_to_string(*bytes as u64));
                if *hold_ms > 0 {
                    args.push(owned("--hold-ms"));
                    args.push(u64_to_string(*hold_ms));
                }
            },
        }
        assert(arg_views(args@) =~= self.cli_args_spec());
        args
    }
}

impl ParseAppArgsError {
    /// The text that the error shows: the usage text for a help request,
    /// the message otherwise.
    pub fn to_string(&self) -> (r: String)
        ensures
            match self {
                ParseAppArgsError::HelpRequested => r@ == APP_USAGE@,
                ParseAppArgsError::Message(m) => r@ == m@,
            },
    {
        match self {
            ParseAppArgsError::HelpRequested => owned(APP_USAGE),
            ParseAppArgsError::Message(m) => m.clone(),
        }
    }
}

/// An owned copy of a string slice.
pub(crate) fn owned(s: &str) -> (r: String)
    ensures
        r@ == s@,
{
    let mut r = String::new();
    r.append(s);
    r
}

/// The help text of `my-app`.
pub fn app_usage() -> (r: &'static str)
    ensures
        r@ == APP_USAGE@,
{
    APP_USAGE
}

/// The options of the `my-app` command line, as far as they were given.
pub struct AppFlags {
    pub workload: Option<Seq<char>>,
    pub n: Option<u32>,
    pub bytes: Option<usize>,
    pub hold_ms: Option<u64>,
}

/// The message for an option value that is not a number of the expected kind.
pub open spec fn invalid_value_message(flag: Seq<char>, value: Seq<char>, expected: Seq<char>) -> Seq<
    char,
> {
    "invalid value for "@ + flag + ": "@ + value + " (expected "@ + expected + ")"@
}

/// Whether the command line asks for help (`--help` or `-h` anywhere).
pub open spec fn help_requested(args: Seq<Seq<char>>) -> bool {
    exists|i: int| 0 <= i < args.len() && (#[trigger] args[i] == "--help"@ || args[i] == "-h"@)
}

/// Reads the options of the command line from index `i` on into `f`; the
/// error is the message for the first option that cannot be read.
pub open spec fn scan_app_args(args: Seq<Seq<char>>, i: int, f: AppFlags) -> Result<
    AppFlags,
    Seq<char>,
>
    decreases args.len() - i,
{
    if i < 0 || i >= args.len() {
        Ok(f)
    } else if args[i] == "--workload"@ {
        if i + 1 < args.len() {
            scan_app_args(args, i + 2, AppFlags { workload: Some(args[i + 1]), ..f })
        } else {
            Err("missing value for --workload"@)
        }
    } else if args[i] == "--n"@ {
        if i + 1 < args.len() {
            match parse_unsigned_spec(args[i + 1], u32::MAX as nat) {
                Some(v) => scan_app_args(args, i + 2, AppFlags { n: Some(v as u32), ..f }),
                None => Err(
                    invalid_value_message("--n"@, args[i + 1], "unsigned 32-bit integer"@),
                ),
            }
        } else {
            Err("missing value for --n"@)
        }
    } else if args[i] == "--bytes"@ {
        if i + 1 < args.len() {
            match parse_unsigned_spec(args[i + 1], usize::MAX as nat) {
                Some(v) => scan_app_args(args, i + 2, AppFlags { bytes: Some(v as usize), ..f }),
                None => Err(
                    invalid_value_message("--bytes"@, args[i + 1], "non-negative integer"@),
                ),
            }
        } else {
            Err("missing value for --bytes"@)
        }
    } else if args[i] == "--hold-ms"@ {
        if i + 1 < args.len() {
            match parse_unsigned_spec(args[i + 1], u64::MAX as nat) {
                Some(v) => scan_app_args(args, i + 2, AppFlags { hold_ms: Some(v as u64), ..f }),
                None => Err(
                    invalid_value_message("--hold-ms"@, args[i + 1], "unsigned 64-bit integer"@),
                ),
            }
        } else {
            Err("missing value for --hold-ms"@)
        }
    } else {
        Err("unknown argument: "@ + args[i] + "\n\n"@ + APP_USAGE@)
    }
}

/// The workload that the options select, or the message for options that do
/// not belong to it.
pub open spec fn select_app_workload(f: AppFlags) -> Result<Workload, Seq<char>> {
    let name = match f.workload {
        Some(w) => w,
        None => "fib"@,
    };
    if name == "noop"@ {
        if f.n is Some {
            Err("--n is only valid with --workload fib"@)
        } else if f.bytes is Some {
            Err("--bytes is only valid with --workload alloc_touch"@)
        } else if f.hold_ms is Some {
            Err("--hold-ms is only valid with --workload alloc_touch"@)
        } else {
            Ok(Workload::Noop)
        }
    } else if name == "fib"@ {
        if f.bytes is Some {
            Err("--bytes is only valid with --workload alloc_touch"@)
        } else if f.hold_ms is Some {
            Err("--hold-ms is only valid with --workload alloc_touch"@)
        } else {
            Ok(
                Workload::Fib {
                    n: match f.n {
                        Some(n) => n,
                        None => DEFAULT_FIB_N,
                    },
                },
            )
        }
    } else if name == "alloc_touch"@ {
        if f.n is Some {
            Err("--n is only valid with --workload fib"@)
        } else {
            Ok(
                Workload::AllocTouch {
                    bytes: match f.bytes {
                        Some(b) => b,
                        None => DEFAULT_ALLOC_BYTES,
                    },
                    hold_ms: match f.hold_ms {
                        Some(h) => h,
                        None => 0,
                    },
                },
            )
        }
    } else {
        Err("unsupported workload: "@ + name + "\nexpected one of: noop, fib, alloc_touch"@)
    }
}

/// No option given yet.
pub open spec fn no_app_flags() -> AppFlags {
    AppFlags { workload: None, n: None, bytes: None, hold_ms: None }
}

/// The workload that a command line (without help) selects, or the message
/// that refuses it.
pub open spec fn parse_app_args_spec(args: Seq<Seq<char>>) -> Result<Workload, Seq<char>> {
    match scan_app_args(args, 0, no_app_flags()) {
        Ok(f) => select_app_workload(f),
        Err(m) => Err(m),
    }
}

/// What `parse_app_args` answers for the given command line.
pub open spec fn app_args_outcome(args: Seq<Seq<char>>, r: Result<Workload, ParseAppArgsError>) -> bool {
    if help_requested(args) {
        r matches Err(ParseAppArgsError::HelpRequested)
    } else {
        match parse_app_args_spec(args) {
            Ok(w) => r == Ok::<Workload, ParseAppArgsError>(w),
            Err(m) => r matches Err(ParseAppArgsError::Message(s)) && s@ == m,
        }
    }
}

/// The message for an option value that is not a number of the expected kind.
fn invalid_value(flag: &str, value: &str, expected: &str) -> (r: ParseAppArgsError)
    ensures
        r matches ParseAppArgsError::Message(s) && s@ == invalid_value_message(
            flag@,
            value@,
            expected@,
        ),
{
    let mut s = String::new();
    s.append("invalid value for ");
    s.append(flag);
    s.append(": ");
    s.append(value);
    s.append(" (expected ");
    s.append(expected);
    s.append(")");
    ParseAppArgsError::Message(s)
}

/// Reads the value of `flag` as a `u32`.
fn parse_u32(value: &str, flag: &str) -> (r: Result<u32, ParseAppArgsError>)
    ensures
        match parse_unsigned_spec(value@, u32::MAX as nat) {
            Some(v) => r == Ok::<u32, ParseAppArgsError>(v as u32),
            None => r matches Err(ParseAppArgsError::Message(s)) && s@ == invalid_value_message(
                flag@,
                value@,
                "unsigned 32-bit integer"@,
            ),
        },
{
    match parse_unsigned(value, 0xffff_ffff) {
        Some(v) => Ok(v as u32),
        None => Err(invalid_value(flag, value, "unsigned 32-bit integer")),
    }
}

/// Reads the value of `flag` as a `usize`.
fn parse_usize(value: &str, flag: &str) -> (r: Result<usize, ParseAppArgsError>)
    ensures
        match parse_unsigned_spec(value@, usize::MAX as nat) {
            Some(v) => r == Ok::<usize, ParseAppArgsError>(v as usize),
            None => r matches Err(ParseAppArgsError::Message(s)) && s@ == invalid_value_message(
                flag@,
                value@,
                "non-negative integer"@,
            ),
        },
{
    match parse_unsigned(value, usize::MAX as u64) {
        Some(v) => Ok(v as usize),
        None => Err(invalid_value(flag, value, "non-negative integer")),
    }
}

/// Reads the value of `flag` as a `u64`.
fn parse_u64(value: &str, flag: &str) -> (r: Result<u64, ParseAppArgsError>)
    ensures
        match parse_unsigned_spec(value@, u64::MAX as nat) {
            Some(v) => r == Ok::<u64, ParseAppArgsError>(v as u64),
            None => r matches Err(ParseAppArgsError::Message(s)) && s@ == invalid_value_message(
                flag@,
                value@,
                "unsigned 64-bit integer"@,
            ),
        },
{
    match parse_unsigned(value, u64::MAX) {
        Some(v) => Ok(v),
        None => Err(invalid_value(flag, value, "unsigned 64-bit integer")),
    }
}

/// A `ParseAppArgsError::Message` holding the given text.
fn message(text: &str) -> (r: ParseAppArgsError)
    ensures
        r matches ParseAppArgsError::Message(s) && s@ == text@,
{
    ParseAppArgsError::Message(owned(text))
}

/// Whether any argument asks for help.
pub(crate) fn any_help(args: &Vec<String>) -> (r: bool)
    ensures
        r == help_requested(arg_views(args@)),
{
    let mut i: usize = 0;
    while i < args.len()
        invariant
            i <= args@.len(),
            forall|k: int|
                0 <= k < i ==> !(#[trigger] arg_views(args@)[k] == "--help"@ || arg_views(
                    args@,
                )[k] == "-h"@),
        decreases args@.len() - i,
    {
        if str_eq(args[i].as_str(), "--help") || str_eq(args[i].as_str(), "-h") {
            assert(arg_views(args@)[i as int] == args@[i as int]@);
            return true;
        }
        i = i + 1;
    }
    false
}

/// The view of the options read so far.
spec fn flags_view(
    workload: Option<String>,
    n: Option<u32>,
    bytes: Option<usize>,
    hold_ms: Option<u64>,
) -> AppFlags {
    AppFlags {
        workload: match workload {
            Some(w) => Some(w@),
            None => None,
        },
        n,
        bytes,
        hold_ms,
    }
}

/// Parses the command line of `my-app` (without the program name) into the
/// workload it selects.
pub fn parse_app_args(args: Vec<String>) -> (r: Result<Workload, ParseAppArgsError>)
    ensures
        app_args_outcome(arg_views(args@), r),
{
    let ghost av = arg_views(args@);
    if any_help(&args) {
        return Err(ParseAppArgsError::HelpRequested);
    }
    let mut workload_name: Option<String> = None;
    let mut fib_n: Option<u32> = None;
    let mut alloc_bytes: Option<usize> = None;
    let mut hold_ms: Option<u64> = None;

    let mut index: usize = 0;
    while index < args.len()
        invariant
            av == arg_views(args@),
            !help_requested(av),
            index <= args@.len(),
            scan_app_args(av, 0, no_app_flags()) == scan_app_args(
                av,
                index as int,
                flags_view(workload_name, fib_n, alloc_bytes, hold_ms),
            ),
        decreases args@.len() - index,
    {
        let arg = args[index].as_str();
        assert(av[index as int] == arg@);
        let has_value = index + 1 < args.len();
        if str_eq(arg, "--workload") {
            if !has_value {
                return Err(message("missing value for --workload"));
            }
            workload_name = Some(args[index + 1].clone());
            index = index + 2;
        } else if str_eq(arg, "--n") {
            if !has_value {
                return Err(message("missing value for --n"));
            }
            fib_n = Some(parse_u32(args[index + 1].as_str(), "--n")?);
            index = index + 2;
        } else if str_eq(arg, "--bytes") {
            if !has_value {
                return Err(message("missing value for --bytes"));
            }
            alloc_bytes = Some(parse_usize(args[index + 1].as_str(), "--bytes")?);
            index = index + 2;
        } else if str_eq(arg, "--hold-ms") {
            if !has_value {
                return Err(message("missing value for --hold-ms"));
            }
            hold_ms = Some(parse_u64(args[index + 1].as_str(), "--hold-ms")?);
            index = index + 2;
        } else {
            let mut s = String::new();
            s.append("unknown argument: ");
            s.append(arg);
            s.append("\n\n");
            s.append(app_usage());
            return Err(ParseAppArgsError::Message(s));
        }
    }
    assert(scan_app_args(av, index as int, flags_view(workload_name, fib_n, alloc_bytes, hold_ms))
        == Ok::<AppFlags, Seq<char>>(flags_view(workload_name, fib_n, alloc_bytes, hold_ms)));
    select_workload(workload_name, fib_n, alloc_bytes, hold_ms)
}

/// The workload that the read options select.
fn select_workload(
    workload_name: Option<String>,
    fib_n: Option<u32>,
    alloc_bytes: Option<usize>,
    hold_ms: Option<u64>,
) -> (r: Result<Workload, ParseAppArgsError>)
    ensures
        match select_app_workload(flags_view(workload_name, fib_n, alloc_bytes, hold_ms)) {
            Ok(w) => r == Ok::<Workload, ParseAppArgsError>(w),
            Err(m) => r matches Err(ParseAppArgsError::Message(s)) && s@ == m,
        },
{
    let name = match &workload_name {
        Some(w) => w.clone(),
        None => owned("fib"),
    };
    let name = name.as_str();
    if str_eq(name, "noop") {
        if fib_n.is_some() {
            return Err(message("--n is only valid with --workload fib"));
        }
        if alloc_bytes.is_some() {
            return Err(message("--bytes is only valid with --workload alloc_touch"));
        }
        if hold_ms.is_some() {
            return Err(message("--hold-ms is only valid with --workload alloc_touch"));
        }
        Ok(Workload::Noop)
    } else if str_eq(name, "fib") {
        if alloc_bytes.is_some() {
            return Err(message("--bytes is only valid with --workload alloc_touch"));
        }
        if hold_ms.is_some() {
            return Err(message("--hold-ms is only valid with --workload alloc_touch"));
        }
        Ok(
            Workload::Fib {
                n: match fib_n {
                    Some(n) => n,
                    None => DEFAULT_FIB_N,
                },
            },
        )
    } else if str_eq(name, "alloc_touch") {
        if fib_n.is_some() {
            return Err(message("--n is only valid with --workload fib"));
        }
        Ok(
            Workload::AllocTouch {
                bytes: match alloc_bytes {
                    Some(b) => b,
                    None => DEFAULT_ALLOC_BYTES,
                },
                hold_ms: match hold_ms {
                    Some(h) => h,
                    None => 0,
                },
            },
        )
    } else {
        let mut s = String::new();
        s.append("unsupported workload: ");
        s.append(name);
        s.append("\nexpected one of: noop, fib, alloc_touch");
        Err(ParseAppArgsError::Message(s))
    }
}


/// The decimal notation of a value reads back as that value.
pub proof fn lemma_dec_str_parses_back(n: nat, max: nat)
    requires
        n <= max,
    ensures
        parse_unsigned_spec(dec_str(n), max) == Some(n),
{
    lemma_dec_str_digits(n);
    assert(crate::decimal::is_digit(dec_str(n)[0]));
}

/// No decimal notation is an option name or a help request.
pub(crate) proof fn lemma_dec_str_not_option(n: nat)
    ensures
        dec_str(n) != "--workload"@,
        dec_str(n) != "--n"@,
        dec_str(n) != "--bytes"@,
        dec_str(n) != "--hold-ms"@,
        dec_str(n) != "--help"@,
        dec_str(n) != "-h"@,
{
    lemma_dec_str_digits(n);
    assert(crate::decimal::is_digit(dec_str(n)[0]));
    reveal_strlit("--workload");
    reveal_strlit("--n");
    reveal_strlit("--bytes");
    reveal_strlit("--hold-ms");
    reveal_strlit("--help");
    reveal_strlit("-h");
    assert("--workload"@[0] == '-');
    assert("--n"@[0] == '-');
    assert("--bytes"@[0] == '-');
    assert("--hold-ms"@[0] == '-');
    assert("--help"@[0] == '-');
    assert("-h"@[0] == '-');
}

/// The literals of the command line are told apart by their lengths.
proof fn lemma_option_lengths()
    ensures
        "--workload"@.len() == 10,
        "--n"@.len() == 3,
        "--bytes"@.len() == 7,
        "--hold-ms"@.len() == 9,
        "--help"@.len() == 6,
        "-h"@.len() == 2,
        "noop"@.len() == 4,
        "fib"@.len() == 3,
        "alloc_touch"@.len() == 11,
{
    reveal_strlit("--workload");
    reveal_strlit("--n");
    reveal_strlit("--bytes");
    reveal_strlit("--hold-ms");
    reveal_strlit("--help");
    reveal_strlit("-h");
    reveal_strlit("noop");
    reveal_strlit("fib");
    reveal_strlit("alloc_touch");
}

/// The command line of `noop` reads back as `noop`.
proof fn lemma_noop_args_parse_back()
    ensures
        !help_requested(Workload::Noop.cli_args_spec()),
        parse_app_args_spec(Workload::Noop.cli_args_spec()) == Ok::<Workload, Seq<char>>(
            Workload::Noop,
        ),
{
    lemma_option_lengths();
    let a = Workload::Noop.cli_args_spec();
    assert(!help_requested(a)) by {
        assert forall|i: int| 0 <= i < a.len() implies !(#[trigger] a[i] == "--help"@ || a[i]
            == "-h"@) by {
            if i == 0 {
            } else {
            }
        }
    }
    let f1 = AppFlags { workload: Some("noop"@), ..no_app_flags() };
    assert(scan_app_args(a, 2, f1) == Ok::<AppFlags, Seq<char>>(f1));
    assert(scan_app_args(a, 0, no_app_flags()) == scan_app_args(a, 2, f1));
}

/// The command line of `fib` reads back as the same `fib`.
proof fn lemma_fib_args_parse_back(n: u32)
    ensures
        !help_requested(Workload::Fib { n }.cli_args_spec()),
        parse_app_args_spec(Workload::Fib { n }.cli_args_spec()) == Ok::<Workload, Seq<char>>(
            Workload::Fib { n },
        ),
{
    lemma_option_lengths();
    lemma_dec_str_not_option(n as nat);
    lemma_dec_str_parses_back(n as nat, u32::MAX as nat);
    let a = Workload::Fib { n }.cli_args_spec();
    assert(!help_requested(a)) by {
        assert forall|i: int| 0 <= i < a.len() implies !(#[trigger] a[i] == "--help"@ || a[i]
            == "-h"@) by {
            if i == 0 {
            } else if i == 1 {
            } else if i == 2 {
            } else {
            }
        }
    }
    let f1 = AppFlags { workload: Some("fib"@), ..no_app_flags() };
    let f2 = AppFlags { n: Some(n), ..f1 };
    assert(scan_app_args(a, 4, f2) == Ok::<AppFlags, Seq<char>>(f2));
    assert(scan_app_args(a, 2, f1) == scan_app_args(a, 4, f2));
    assert(scan_app_args(a, 0, no_app_flags()) == scan_app_args(a, 2, f1));
}

/// The command line of `alloc_touch` reads back as the same `alloc_touch`.
proof fn lemma_alloc_touch_args_parse_back(bytes: usize, hold_ms: u64)
    ensures
        !help_requested(Workload::AllocTouch { bytes, hold_ms }.cli_args_spec()),
        parse_app_args_spec(Workload::AllocTouch { bytes, hold_ms }.cli_args_spec()) == Ok::<
            Workload,
            Seq<char>,
        >(Workload::AllocTouch { bytes, hold_ms }),
{
    lemma_option_lengths();
    lemma_dec_str_not_option(bytes as nat);
    lemma_dec_str_not_option(hold_ms as nat);
    lemma_dec_str_parses_back(bytes as nat, usize::MAX as nat);
    lemma_dec_str_parses_back(hold_ms as nat, u64::MAX as nat);
    let a = Workload::AllocTouch { bytes, hold_ms }.cli_args_spec();
    assert(!help_requested(a)) by {
        assert forall|i: int| 0 <= i < a.len() implies !(#[trigger] a[i] == "--help"@ || a[i]
            == "-h"@) by {
            if i == 0 {
            } else if i == 1 {
            } else if i == 2 {
            } else if i == 3 {
            } else if i == 4 {
            } else {
            }
        }
    }
    let f1 = AppFlags { workload: Some("alloc_touch"@), ..no_app_flags() };
    let f2 = AppFlags { bytes: Some(bytes), ..f1 };
    if hold_ms > 0 {
        let f3 = AppFlags { hold_ms: Some(hold_ms), ..f2 };
        assert(scan_app_args(a, 6, f3) == Ok::<AppFlags, Seq<char>>(f3));
        assert(scan_app_args(a, 4, f2) == scan_app_args(a, 6, f3));
    } else {
        assert(scan_app_args(a, 4, f2) == Ok::<AppFlags, Seq<char>>(f2));
    }
    assert(scan_app_args(a, 2, f1) == scan_app_args(a, 4, f2));
    assert(scan_app_args(a, 0, no_app_flags()) == scan_app_args(a, 2, f1));
}

/// Law: the arguments that `cli_args` gives for a workload ask for no help,
/// and `parse_app_args` reads them back as that same workload. This is what
/// lets the benchmark drivers launch `my-app` with any workload.
pub proof fn lemma_cli_args_parse_back(w: Workload)
    ensures
        !help_requested(w.cli_args_spec()),
        parse_app_args_spec(w.cli_args_spec()) == Ok::<Workload, Seq<char>>(w),
{
    match w {
        Workload::Noop => lemma_noop_args_parse_back(),
        Workload::Fib { n } => lemma_fib_args_parse_back(n),
        Workload::AllocTouch { bytes, hold_ms } => lemma_alloc_touch_args_parse_back(bytes, hold_ms),
    }
}

/// The Fibonacci numbers: 0, 1, 1, 2, 3, 5, ...
pub open spec fn fib(n: nat) -> nat
    decreases n,
{
    if n == 0 {
        0
    } else if n == 1 {
        1
    } else {
        fib((n - 1) as nat) + fib((n - 2) as nat)
    }
}

/// The largest index whose Fibonacci number fits in a `u32`.
pub const MAX_FIB_N: u32 = 47;

/// Fibonacci numbers never decrease.
pub proof fn lemma_fib_monotone(i: nat, j: nat)
    requires
        i <= j,
    ensures
        fib(i) <= fib(j),
    decreases j - i,
{
    if i < j {
        lemma_fib_monotone(i, (j - 1) as nat);
    }
}

/// Law: `fib(n)` fits in a `u32` exactly when `n <= MAX_FIB_N`, so that
/// `fibonacci` computes without overflow on exactly those indices.
pub proof fn lemma_fib_fits_u32(n: nat)
    ensures
        fib(n) <= u32::MAX <==> n <= MAX_FIB_N,
{
    lemma_fib_values();
    if n <= 47 {
        lemma_fib_monotone(n, 47);
    } else {
        lemma_fib_monotone(48, n);
    }
}

/// The Fibonacci numbers around the `u32` limit.
proof fn lemma_fib_values()
    ensures
        fib(47) == 2971215073,
        fib(48) == 4807526976,
{
    assert(fib(0) == 0);
    assert(fib(1) == 1);
    assert(fib(2) == 1);
    assert(fib(3) == 2);
    assert(fib(4) == 3);
    assert(fib(5) == 5);
    assert(fib(6) == 8);
    assert(fib(7) == 13);
    assert(fib(8) == 21);
    assert(fib(9) == 34);
    assert(fib(10) == 55);
    assert(fib(11) == 89);
    assert(fib(12) == 144);
    assert(fib(13) == 233);
    assert(fib(14) == 377);
    assert(fib(15) == 610);
    assert(fib(16) == 987);
    assert(fib(17) == 1597);
    assert(fib(18) == 2584);
    assert(fib(19) == 4181);
    assert(fib(20) == 6765);
    assert(fib(21) == 10946);
    assert(fib(22) == 17711);
    assert(fib(23) == 28657);
    assert(fib(24) == 46368);
    assert(fib(25) == 75025);
    assert(fib(26) == 121393);
    assert(fib(27) == 196418);
    assert(fib(28) == 317811);
    assert(fib(29) == 514229);
    assert(fib(30) == 832040);
    assert(fib(31) == 1346269);
    assert(fib(32) == 2178309);
    assert(fib(33) == 3524578);
    assert(fib(34) == 5702887);
    assert(fib(35) == 9227465);
    assert(fib(36) == 14930352);
    assert(fib(37) == 24157817);
    assert(fib(38) == 39088169);
    assert(fib(39) == 63245986);
    assert(fib(40) == 102334155);
    assert(fib(41) == 165580141);
    assert(fib(42) == 267914296);
    assert(fib(43) == 433494437);
    assert(fib(44) == 701408733);
    assert(fib(45) == 1134903170);
    assert(fib(46) == 1836311903);
    assert(fib(47) == 2971215073);
    assert(fib(48) == 4807526976);
}

/// Computes the `n`-th Fibonacci number by the doubly recursive definition;
/// this is the CPU-bound workload, so its running time is the point.
pub fn fibonacci(n: u32) -> (r: u32)
    requires
        n <= MAX_FIB_N,
    ensures
        r == fib(n as nat),
    decreases n,
{
    proof {
        lemma_fib_fits_u32(n as nat);
    }
    match n {
        0 => 0,
        1 => 1,
        _ => {
            proof {
                lemma_fib_monotone((n - 1) as nat, n as nat);
            }
            fibonacci(n - 1) + fibonacci(n - 2)
        },
    }
}


/// The stride, in bytes, at which `alloc_touch` writes into its buffer.
pub const PAGE_SIZE: usize = 4096;

/// The starting value of the `alloc_touch` digest.
pub const FNV_OFFSET: u64 = 14695981039346656037;

/// The multiplier of the `alloc_touch` digest.
pub const FNV_PRIME: u64 = 1099511628211;

/// The byte written at the start of the `page`-th page.
pub open spec fn page_value(page: nat) -> u8 {
    ((page % 256) as u8).wrapping_mul(31).wrapping_add(17)
}

/// The number of pages that a buffer of `bytes` bytes starts: `ceil(bytes / 4096)`.
pub open spec fn page_count(bytes: nat) -> nat {
    (bytes + 4095) / 4096
}

/// The byte at index `j` once every page start has been written.
pub open spec fn touched_byte(j: int) -> u8 {
    if j % 4096 == 0 {
        page_value((j / 4096) as nat)
    } else {
        0
    }
}

/// The byte at index `j` of the buffer that `alloc_touch` leaves: the last
/// byte is raised by `0xA5` (wrapping) after the pages are written.
pub open spec fn final_byte(bytes: usize, j: int) -> u8 {
    if j == bytes - 1 {
        touched_byte(j).wrapping_add(0xA5)
    } else {
        touched_byte(j)
    }
}

/// The digest after the first `pages` page starts have been written.
pub open spec fn touch_digest(bytes: usize, pages: nat) -> u64
    decreases pages,
{
    if pages == 0 {
        FNV_OFFSET ^ (bytes as u64)
    } else {
        touch_digest(bytes, (pages - 1) as nat).wrapping_mul(FNV_PRIME) ^ (page_value(
            (pages - 1) as nat,
        ) as u64)
    }
}

/// The digest that `alloc_touch` reports for a buffer of `bytes` bytes.
pub open spec fn alloc_touch_digest(bytes: usize) -> u64 {
    let d = touch_digest(bytes, page_count(bytes as nat));
    let with_tail = if bytes > 0 {
        d.wrapping_mul(FNV_PRIME) ^ (final_byte(bytes, bytes - 1) as u64)
    } else {
        d
    };
    with_tail ^ (bytes as u64)
}

/// Writing the byte of page `p` extends the touched part of the buffer by
/// one page.
proof fn lemma_touch_page(before: Seq<u8>, after: Seq<u8>, bytes: int, p: int)
    requires
        0 <= p,
        p * 4096 < bytes,
        before.len() == bytes,
        after == before.update(p * 4096, page_value(p as nat)),
        forall|j: int|
            0 <= j < bytes ==> #[trigger] before[j] == if j < p * 4096 {
                touched_byte(j)
            } else {
                0u8
            },
    ensures
        forall|j: int|
            0 <= j < bytes ==> #[trigger] after[j] == if j < (p + 1) * 4096 {
                touched_byte(j)
            } else {
                0u8
            },
{
    assert forall|j: int| 0 <= j < bytes implies #[trigger] after[j] == if j < (p + 1) * 4096 {
        touched_byte(j)
    } else {
        0u8
    } by {
        if j == p * 4096 {
            assert(j % 4096 == 0);
            assert(j / 4096 == p);
        } else {
            assert(after[j] == before[j]);
            if p * 4096 < j < (p + 1) * 4096 {
                assert(j % 4096 != 0);
            }
        }
    }
}

/// Allocates a zeroed buffer of `bytes` bytes, writes one byte at the start of
/// every page, raises the last byte, and folds the written bytes into an
/// FNV-style digest. The buffer is handed back so that the caller can hold
/// the memory for a while before it is freed; the digest is the workload's
/// result.
pub fn alloc_touch_buffer(bytes: usize) -> (r: (Vec<u8>, u64))
    ensures
        r.0@.len() == bytes,
        forall|j: int| 0 <= j < bytes ==> #[trigger] r.0@[j] == final_byte(bytes, j),
        r.1 == alloc_touch_digest(bytes),
{
    let mut buffer = vec![0u8; bytes];
    assert forall|j: int| 0 <= j < bytes implies #[trigger] buffer@[j] == 0u8 by {
        assert(vstd::pervasive::cloned(0u8, buffer@[j]));
    }
    let mut digest: u64 = FNV_OFFSET ^ (bytes as u64);
    let page_size: usize = PAGE_SIZE;
    let total: usize = bytes / page_size + if bytes % page_size != 0 {
        1
    } else {
        0
    };
    assert(total == page_count(bytes as nat));
    let mut p: usize = 0;
    while p < total
        invariant
            page_size == 4096,
            total == page_count(bytes as nat),
            p <= total,
            buffer@.len() == bytes,
            forall|j: int|
                0 <= j < bytes ==> #[trigger] buffer@[j] == if j < p * 4096 {
                    touched_byte(j)
                } else {
                    0u8
                },
            digest == touch_digest(bytes, p as nat),
        decreases total - p,
    {
        assert(p * 4096 < bytes) by (nonlinear_arith)
            requires
                p < total,
                total == (bytes + 4095) / 4096,
        ;
        let index = p * page_size;
        let page: usize = index / page_size;
        assert(page == p);
        let value = ((page % 256) as u8).wrapping_mul(31).wrapping_add(17);
        assert(value == page_value(p as nat));
        let ghost before = buffer@;
        buffer.set(index, value);
        digest = digest.wrapping_mul(FNV_PRIME);
        digest = digest ^ (value as u64);
        proof {
            lemma_touch_page(before, buffer@, bytes as int, p as int);
        }
        p = p + 1;
    }
    assert forall|j: int| 0 <= j < bytes implies #[trigger] buffer@[j] == touched_byte(j) by {
        assert(j < p * 4096) by (nonlinear_arith)
            requires
                p == total,
                total == (bytes + 4095) / 4096,
                j < bytes,
        ;
    }
    if bytes > 0 {
        let tail_index = bytes - 1;
        let tail = buffer[tail_index].wrapping_add(0xA5);
        buffer.set(tail_index, tail);
        digest = digest.wrapping_mul(FNV_PRIME);
        digest = digest ^ (tail as u64);
    }
    let len = buffer.len() as u64;
    (buffer, digest ^ len)
}

} // verus!

verus! {

/// FNV-1 style fold of `data` into `h`: for each byte in order, the hash is
/// multiplied by `FNV_PRIME` (wrapping) and then xored with the byte.
pub open spec fn fnv_fold(h: u64, data: Seq<u8>) -> u64
    decreases data.len(),
{
    if data.len() == 0 {
        h
    } else {
        fnv_fold(h, data.drop_last()).wrapping_mul(FNV_PRIME) ^ (data.last() as u64)
    }
}

/// The bytes that `alloc_touch` writes at the page starts of a buffer of
/// `bytes` bytes, in page order: page `p` gets `(31 * (p mod 256) + 17) mod 256`.
pub open spec fn page_pattern(bytes: nat) -> Seq<u8> {
    Seq::new((bytes + 4095) / 4096, |p: int| ((p % 256 * 31 + 17) % 256) as u8)
}

/// The page byte depends on the page only through its index modulo 256.
proof fn lemma_page_value(p: nat)
    ensures
        page_value(p) as int == (p % 256 * 31 + 17) % 256,
{
    let a: u8 = (p % 256) as u8;
    let m: u8 = a.wrapping_mul(31);
    assert(m as int == (a as int * 31) % 256);
    let r: u8 = m.wrapping_add(17);
    assert(r as int == (m as int + 17) % 256);
    assert((a as int * 31 % 256 + 17) % 256 == (a as int * 31 + 17) % 256) by (nonlinear_arith);
}

/// Law: in the buffer that `alloc_touch_buffer` leaves, the byte at the
/// start of page `p` is `(31 * (p mod 256) + 17) mod 256`, so the pattern
/// repeats every 256 pages; every other byte is zero; and the last byte is
/// then raised by `0xA5` (mod 256).
pub proof fn lemma_alloc_touch_bytes(bytes: usize, j: int)
    requires
        0 <= j < bytes,
    ensures
        ({
            let written: int = if j % 4096 == 0 {
                (j / 4096 % 256 * 31 + 17) % 256
            } else {
                0
            };
            if j == bytes - 1 {
                final_byte(bytes, j) as int == (written + 0xA5) % 256
            } else {
                final_byte(bytes, j) as int == written
            }
        }),
{
    if j % 4096 == 0 {
        lemma_page_value((j / 4096) as nat);
    }
}

/// The digest after `k` pages is the fold of the first `k` bytes of the
/// page pattern.
proof fn lemma_touch_digest_fold(bytes: usize, k: nat)
    requires
        k <= page_count(bytes as nat),
    ensures
        touch_digest(bytes, k) == fnv_fold(FNV_OFFSET ^ (bytes as u64), page_pattern(bytes as nat).take(k as int)),
    decreases k,
{
    let pat = page_pattern(bytes as nat);
    if k > 0 {
        lemma_touch_digest_fold(bytes, (k - 1) as nat);
        assert(pat.take(k as int).drop_last() =~= pat.take(k - 1));
        lemma_page_value((k - 1) as nat);
        assert(pat.take(k as int).last() == pat[k - 1]);
        assert(page_value((k - 1) as nat) == pat[k - 1]);
    } else {
        assert(pat.take(0) =~= Seq::<u8>::empty());
    }
}

/// Law: the digest of `alloc_touch` is the FNV-1 style fold, started from
/// `FNV_OFFSET ^ bytes`, of the page bytes in page order followed by the
/// raised last byte, xored once more with `bytes` at the end.
pub proof fn lemma_alloc_touch_digest(bytes: usize)
    ensures
        ({
            let tail: Seq<u8> = if bytes > 0 {
                seq![final_byte(bytes, bytes - 1)]
            } else {
                Seq::empty()
            };
            alloc_touch_digest(bytes) == fnv_fold(
                FNV_OFFSET ^ (bytes as u64),
                page_pattern(bytes as nat) + tail,
            ) ^ (bytes as u64)
        }),
{
    let pat = page_pattern(bytes as nat);
    let seed = FNV_OFFSET ^ (bytes as u64);
    lemma_touch_digest_fold(bytes, page_count(bytes as nat));
    assert(pat.take(page_count(bytes as nat) as int) =~= pat);
    if bytes > 0 {
        let data = pat + seq![final_byte(bytes, bytes - 1)];
        assert(data.drop_last() =~= pat);
        assert(data.last() == final_byte(bytes, bytes - 1));
    } else {
        assert(pat + Seq::<u8>::empty() =~= pat);
    }
}

/// A command line asks for help exactly when one of its parts does.
pub(crate) proof fn lemma_help_concat(a: Seq<Seq<char>>, b: Seq<Seq<char>>)
    ensures
        help_requested(a + b) == (help_requested(a) || help_requested(b)),
{
    let c = a + b;
    if help_requested(c) {
        let i = choose|i: int| 0 <= i < c.len() && (#[trigger] c[i] == "--help"@ || c[i] == "-h"@);
        if i < a.len() {
            assert(a[i] == c[i]);
        } else {
            assert(b[i - a.len()] == c[i]);
        }
    }
    if help_requested(a) {
        let i = choose|i: int| 0 <= i < a.len() && (#[trigger] a[i] == "--help"@ || a[i] == "-h"@);
        assert(c[i] == a[i]);
    }
    if help_requested(b) {
        let i = choose|i: int| 0 <= i < b.len() && (#[trigger] b[i] == "--help"@ || b[i] == "-h"@);
        assert(c[i + a.len()] == b[i]);
    }
}

/// Exchanging two pairs of arguments does not change whether help is asked
/// for.
pub(crate) proof fn lemma_help_four(f1: Seq<char>, v1: Seq<char>, f2: Seq<char>, v2: Seq<char>)
    ensures
        help_requested(seq![f1, v1, f2, v2]) == help_requested(seq![f2, v2, f1, v1]),
{
    let a = seq![f1, v1, f2, v2];
    let b = seq![f2, v2, f1, v1];
    assert(a[0] == b[2] && a[1] == b[3] && a[2] == b[0] && a[3] == b[1]);
    if help_requested(a) {
        let i = choose|i: int| 0 <= i < a.len() && (#[trigger] a[i] == "--help"@ || a[i] == "-h"@);
        let k = (i + 2) % 4;
        assert(b[k] == a[i]);
    }
    if help_requested(b) {
        let i = choose|i: int| 0 <= i < b.len() && (#[trigger] b[i] == "--help"@ || b[i] == "-h"@);
        let k = (i + 2) % 4;
        assert(a[k] == b[i]);
    }
}

/// Whether an option and its value, given alone, are read without error.
pub open spec fn app_option_accepted(flag: Seq<char>, value: Seq<char>) -> bool {
    scan_app_args(seq![flag, value], 0, no_app_flags()) is Ok
}

/// Reading an option with its value depends on the options read before only
/// through what it records, and fails the same way whatever they were.
proof fn lemma_app_step(args: Seq<Seq<char>>, i: int, f: AppFlags, h: AppFlags)
    requires
        0 <= i,
        i + 1 < args.len(),
    ensures
        scan_app_args(args, i, f) == match scan_app_args(seq![args[i], args[i + 1]], 0, f) {
            Ok(g) => scan_app_args(args, i + 2, g),
            Err(e) => Err(e),
        },
        (scan_app_args(seq![args[i], args[i + 1]], 0, f) is Ok) == (scan_app_args(
            seq![args[i], args[i + 1]],
            0,
            h,
        ) is Ok),
        scan_app_args(seq![args[i], args[i + 1]], 0, f) is Err ==> scan_app_args(
            seq![args[i], args[i + 1]],
            0,
            f,
        ) == scan_app_args(seq![args[i], args[i + 1]], 0, h),
{
    reveal_with_fuel(scan_app_args, 2);
    let pair = seq![args[i], args[i + 1]];
    assert(pair[0] == args[i] && pair[1] == args[i + 1]);
}

/// Reading a command line that starts with a prefix read without error goes
/// on, after the prefix, from what the prefix recorded.
proof fn lemma_app_scan_prefix(pre: Seq<Seq<char>>, x: Seq<Seq<char>>, i: int, f: AppFlags)
    requires
        0 <= i <= pre.len(),
        scan_app_args(pre, i, f) is Ok,
    ensures
        scan_app_args(pre + x, i, f) == scan_app_args(pre + x, pre.len() as int, scan_app_args(pre, i, f)->Ok_0),
    decreases pre.len() - i,
{
    let a = pre + x;
    if i < pre.len() {
        if i + 1 >= pre.len() {
            assert(scan_app_args(pre, i, f) is Err);
        }
        assert(a[i] == pre[i] && a[i + 1] == pre[i + 1]);
        lemma_app_step(pre, i, f, f);
        lemma_app_step(a, i, f, f);
        let g = scan_app_args(seq![pre[i], pre[i + 1]], 0, f)->Ok_0;
        lemma_app_scan_prefix(pre, x, i + 2, g);
    }
}

/// Reading from index `j` on depends only on the arguments from `j` on.
proof fn lemma_app_scan_suffix(a: Seq<Seq<char>>, b: Seq<Seq<char>>, j: int, f: AppFlags)
    requires
        0 <= j,
        a.len() == b.len(),
        forall|k: int| j <= k < a.len() ==> a[k] == b[k],
    ensures
        scan_app_args(a, j, f) == scan_app_args(b, j, f),
    decreases a.len() - j,
{
    if j + 1 < a.len() {
        lemma_app_step(a, j, f, f);
        lemma_app_step(b, j, f, f);
        assert(seq![a[j], a[j + 1]] == seq![b[j], b[j + 1]]);
        match scan_app_args(seq![a[j], a[j + 1]], 0, f) {
            Ok(g) => lemma_app_scan_suffix(a, b, j + 2, g),
            Err(_) => {},
        }
    } else if j < a.len() {
        assert(a[j] == b[j]);
    }
}

/// Two options that name different settings, read one after the other,
/// record the same whichever comes first.
proof fn lemma_app_steps_commute(f1: Seq<char>, v1: Seq<char>, f2: Seq<char>, v2: Seq<char>, g: AppFlags)
    requires
        app_option_accepted(f1, v1),
        app_option_accepted(f2, v2),
        f1 != f2,
    ensures
        scan_app_args(seq![f1, v1], 0, g) is Ok,
        scan_app_args(seq![f2, v2], 0, g) is Ok,
        scan_app_args(seq![f2, v2], 0, scan_app_args(seq![f1, v1], 0, g)->Ok_0) == scan_app_args(
            seq![f1, v1],
            0,
            scan_app_args(seq![f2, v2], 0, g)->Ok_0,
        ),
{
    reveal_with_fuel(scan_app_args, 2);
    let p1 = seq![f1, v1];
    let p2 = seq![f2, v2];
    assert(p1[0] == f1 && p1[1] == v1);
    assert(p2[0] == f2 && p2[1] == v2);
}

/// Law: options are read independently of their order. Exchanging two
/// neighbouring options (each with its value), after a prefix of whole
/// options that is read without error, changes neither whether help is
/// asked for nor the workload or message that `parse_app_args` answers;
/// provided at least one of the two is accepted, and, when both are, that
/// they are different options.
pub proof fn lemma_app_args_swap(
    pre: Seq<Seq<char>>,
    f1: Seq<char>,
    v1: Seq<char>,
    f2: Seq<char>,
    v2: Seq<char>,
    post: Seq<Seq<char>>,
)
    requires
        scan_app_args(pre, 0, no_app_flags()) is Ok,
        app_option_accepted(f1, v1) || app_option_accepted(f2, v2),
        app_option_accepted(f1, v1) && app_option_accepted(f2, v2) ==> f1 != f2,
    ensures
        help_requested(pre + seq![f1, v1, f2, v2] + post) == help_requested(
            pre + seq![f2, v2, f1, v1] + post,
        ),
        parse_app_args_spec(pre + seq![f1, v1, f2, v2] + post) == parse_app_args_spec(
            pre + seq![f2, v2, f1, v1] + post,
        ),
        forall|r: Result<Workload, ParseAppArgsError>|
            app_args_outcome(pre + seq![f1, v1, f2, v2] + post, r) == app_args_outcome(
                pre + seq![f2, v2, f1, v1] + post,
                r,
            ),
{
    let a = pre + seq![f1, v1, f2, v2] + post;
    let b = pre + seq![f2, v2, f1, v1] + post;
    let p = pre.len() as int;
    assert(a == pre + (seq![f1, v1, f2, v2] + post));
    assert(b == pre + (seq![f2, v2, f1, v1] + post));
    assert(a[p] == f1 && a[p + 1] == v1 && a[p + 2] == f2 && a[p + 3] == v2);
    assert(b[p] == f2 && b[p + 1] == v2 && b[p + 2] == f1 && b[p + 3] == v1);
    lemma_help_concat(pre + seq![f1, v1, f2, v2], post);
    lemma_help_concat(pre + seq![f2, v2, f1, v1], post);
    lemma_help_concat(pre, seq![f1, v1, f2, v2]);
    lemma_help_concat(pre, seq![f2, v2, f1, v1]);
    lemma_help_four(f1, v1, f2, v2);
    // reading
    let g = scan_app_args(pre, 0, no_app_flags())->Ok_0;
    lemma_app_scan_prefix(pre, seq![f1, v1, f2, v2] + post, 0, no_app_flags());
    lemma_app_scan_prefix(pre, seq![f2, v2, f1, v1] + post, 0, no_app_flags());
    lemma_app_step(a, p, g, no_app_flags());
    lemma_app_step(b, p, g, no_app_flags());
    assert(seq![a[p], a[p + 1]] == seq![f1, v1]);
    assert(seq![b[p], b[p + 1]] == seq![f2, v2]);
    assert(seq![a[p + 2], a[p + 3]] == seq![f2, v2]);
    assert(seq![b[p + 2], b[p + 3]] == seq![f1, v1]);
    if app_option_accepted(f1, v1) && app_option_accepted(f2, v2) {
        lemma_app_steps_commute(f1, v1, f2, v2, g);
        let g1 = scan_app_args(seq![f1, v1], 0, g)->Ok_0;
        let g2 = scan_app_args(seq![f2, v2], 0, g)->Ok_0;
        lemma_app_step(a, p + 2, g1, no_app_flags());
        lemma_app_step(b, p + 2, g2, no_app_flags());
        let g12 = scan_app_args(seq![f2, v2], 0, g1)->Ok_0;
        lemma_app_scan_suffix(a, b, p + 4, g12);
    } else if app_option_accepted(f1, v1) {
        let g1 = scan_app_args(seq![f1, v1], 0, g)->Ok_0;
        lemma_app_step(a, p + 2, g1, no_app_flags());
        lemma_app_step(b, p + 2, g, g1);
        lemma_app_step(b, p + 2, g, no_app_flags());
        lemma_app_step(a, p + 2, g1, g);
    } else {
        let g2 = scan_app_args(seq![f2, v2], 0, g)->Ok_0;
        lemma_app_step(b, p + 2, g2, no_app_flags());
        lemma_app_step(a, p, g, g2);
        lemma_app_step(b, p + 2, g2, g);
        lemma_app_step(a, p + 2, g, no_app_flags());
    }
}

/// Law: an option that is left out takes its default. `--n` alone selects
/// the Fibonacci workload with that index, and `--workload alloc_touch`
/// with only `--hold-ms` allocates the default 64 MiB; neither asks for
/// help.
pub proof fn lemma_app_args_defaults(n: nat, h: nat)
    ensures
        n <= u32::MAX ==> !help_requested(seq!["--n"@, dec_str(n)]) && parse_app_args_spec(
            seq!["--n"@, dec_str(n)],
        ) == Ok::<Workload, Seq<char>>(Workload::Fib { n: n as u32 }),
        h <= u64::MAX ==> !help_requested(
            seq!["--workload"@, "alloc_touch"@, "--hold-ms"@, dec_str(h)],
        ) && parse_app_args_spec(seq!["--workload"@, "alloc_touch"@, "--hold-ms"@, dec_str(h)])
            == Ok::<Workload, Seq<char>>(
            Workload::AllocTouch { bytes: DEFAULT_ALLOC_BYTES, hold_ms: h as u64 },
        ),
{
    reveal_strlit("--help");
    reveal_strlit("-h");
    reveal_strlit("--workload");
    reveal_strlit("--n");
    reveal_strlit("--bytes");
    reveal_strlit("--hold-ms");
    reveal_strlit("alloc_touch");
    reveal_strlit("noop");
    reveal_strlit("fib");
    assert("--help"@.len() == 6 && "-h"@.len() == 2 && "--workload"@.len() == 10);
    assert("--n"@.len() == 3 && "--bytes"@.len() == 7 && "--hold-ms"@.len() == 9);
    assert("alloc_touch"@.len() == 11 && "noop"@.len() == 4 && "fib"@.len() == 3);
    lemma_dec_str_not_option(n);
    lemma_dec_str_not_option(h);
    reveal_with_fuel(scan_app_args, 3);
    if n <= u32::MAX {
        lemma_dec_str_parses_back(n, u32::MAX as nat);
        let a = seq!["--n"@, dec_str(n)];
        assert(!help_requested(a)) by {
            if help_requested(a) {
                let i = choose|i: int| 0 <= i < a.len() && (#[trigger] a[i] == "--help"@ || a[i] == "-h"@);
                assert(i == 0 || i == 1);
            }
        }
    }
    if h <= u64::MAX {
        lemma_dec_str_parses_back(h, u64::MAX as nat);
        let a = seq!["--workload"@, "alloc_touch"@, "--hold-ms"@, dec_str(h)];
        assert(!help_requested(a)) by {
            if help_requested(a) {
                let i = choose|i: int| 0 <= i < a.len() && (#[trigger] a[i] == "--help"@ || a[i] == "-h"@);
                assert(0 <= i < 4);
            }
        }
    }
}

/// `--n` with `noop` or `alloc_touch` is refused.
proof fn lemma_foreign_n(n: nat)
    requires
        n <= u32::MAX,
    ensures
        parse_app_args_spec(seq!["--workload"@, "noop"@, "--n"@, dec_str(n)])
            == Err::<Workload, Seq<char>>("--n is only valid with --workload fib"@),
        parse_app_args_spec(seq!["--workload"@, "alloc_touch"@, "--n"@, dec_str(n)])
            == Err::<Workload, Seq<char>>("--n is only valid with --workload fib"@),
{
    reveal_strlit("--workload");
    reveal_strlit("--n");
    reveal_strlit("--bytes");
    reveal_strlit("--hold-ms");
    reveal_strlit("alloc_touch");
    reveal_strlit("noop");
    reveal_strlit("fib");
    assert("--workload"@.len() == 10 && "--n"@.len() == 3 && "--bytes"@.len() == 7);
    assert("--hold-ms"@.len() == 9);
    assert("alloc_touch"@.len() == 11 && "noop"@.len() == 4 && "fib"@.len() == 3);
    lemma_dec_str_not_option(n);
    reveal_with_fuel(scan_app_args, 3);
    lemma_dec_str_parses_back(n, u32::MAX as nat);
}

/// `--bytes` with `noop` or `fib` is refused.
proof fn lemma_foreign_bytes(n: nat)
    requires
        n <= usize::MAX,
    ensures
        parse_app_args_spec(seq!["--workload"@, "noop"@, "--bytes"@, dec_str(n)])
            == Err::<Workload, Seq<char>>("--bytes is only valid with --workload alloc_touch"@),
        parse_app_args_spec(seq!["--workload"@, "fib"@, "--bytes"@, dec_str(n)])
            == Err::<Workload, Seq<char>>("--bytes is only valid with --workload alloc_touch"@),
{
    reveal_strlit("--workload");
    reveal_strlit("--n");
    reveal_strlit("--bytes");
    reveal_strlit("--hold-ms");
    reveal_strlit("alloc_touch");
    reveal_strlit("noop");
    reveal_strlit("fib");
    assert("--workload"@.len() == 10 && "--n"@.len() == 3 && "--bytes"@.len() == 7);
    assert("--hold-ms"@.len() == 9);
    assert("alloc_touch"@.len() == 11 && "noop"@.len() == 4 && "fib"@.len() == 3);
    lemma_dec_str_not_option(n);
    reveal_with_fuel(scan_app_args, 3);
    lemma_dec_str_parses_back(n, usize::MAX as nat);
}

/// `--hold-ms` with `noop` or `fib` is refused.
proof fn lemma_foreign_hold_ms(n: nat)
    requires
        n <= u64::MAX,
    ensures
        parse_app_args_spec(seq!["--workload"@, "noop"@, "--hold-ms"@, dec_str(n)])
            == Err::<Workload, Seq<char>>("--hold-ms is only valid with --workload alloc_touch"@),
        parse_app_args_spec(seq!["--workload"@, "fib"@, "--hold-ms"@, dec_str(n)])
            == Err::<Workload, Seq<char>>("--hold-ms is only valid with --workload alloc_touch"@),
{
    reveal_strlit("--workload");
    reveal_strlit("--n");
    reveal_strlit("--bytes");
    reveal_strlit("--hold-ms");
    reveal_strlit("alloc_touch");
    reveal_strlit("noop");
    reveal_strlit("fib");
    assert("--workload"@.len() == 10 && "--n"@.len() == 3 && "--bytes"@.len() == 7);
    assert("--hold-ms"@.len() == 9);
    assert("alloc_touch"@.len() == 11 && "noop"@.len() == 4 && "fib"@.len() == 3);
    lemma_dec_str_not_option(n);
    reveal_with_fuel(scan_app_args, 3);
    lemma_dec_str_parses_back(n, u64::MAX as nat);
}

/// Law: an option that belongs to another workload is refused, whatever
/// its value: `--n` with `noop` or `alloc_touch`, and `--bytes` or
/// `--hold-ms` with `noop` or `fib`.
pub proof fn lemma_app_args_foreign_option(n: nat)
    ensures
        n <= u32::MAX ==> parse_app_args_spec(seq!["--workload"@, "noop"@, "--n"@, dec_str(n)])
            == Err::<Workload, Seq<char>>("--n is only valid with --workload fib"@),
        n <= u32::MAX ==> parse_app_args_spec(
            seq!["--workload"@, "alloc_touch"@, "--n"@, dec_str(n)],
        ) == Err::<Workload, Seq<char>>("--n is only valid with --workload fib"@),
        n <= usize::MAX ==> parse_app_args_spec(
            seq!["--workload"@, "noop"@, "--bytes"@, dec_str(n)],
        ) == Err::<Workload, Seq<char>>("--bytes is only valid with --workload alloc_touch"@),
        n <= usize::MAX ==> parse_app_args_spec(seq!["--workload"@, "fib"@, "--bytes"@, dec_str(n)])
            == Err::<Workload, Seq<char>>("--bytes is only valid with --workload alloc_touch"@),
        n <= u64::MAX ==> parse_app_args_spec(
            seq!["--workload"@, "noop"@, "--hold-ms"@, dec_str(n)],
        ) == Err::<Workload, Seq<char>>("--hold-ms is only valid with --workload alloc_touch"@),
        n <= u64::MAX ==> parse_app_args_spec(
            seq!["--workload"@, "fib"@, "--hold-ms"@, dec_str(n)],
        ) == Err::<Workload, Seq<char>>("--hold-ms is only valid with --workload alloc_touch"@),
{
    if n <= u32::MAX {
        lemma_foreign_n(n);
    }
    if n <= usize::MAX {
        lemma_foreign_bytes(n);
    }
    if n <= u64::MAX {
        lemma_foreign_hold_ms(n);
    }
}

} // verus!
