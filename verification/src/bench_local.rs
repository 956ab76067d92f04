//! The decisions of the local cold-start benchmark driver: its command
//! line, the command that runs one sample, the reading of a sample's output,
//! and the grouping of samples for the summary.

use vstd::prelude::*;

use crate::bench::Runtime;
use crate::decimal::{
    dec_str, i32_to_string, int_str, parse_unsigned, parse_unsigned_spec, u64_to_string,
};
use crate::text::{chars_of, is_whitespace, lemma_trim_is_slice, str_eq, string_of, trim, trim_bounds};
use crate::workload::{
    arg_views, help_requested, lemma_dec_str_not_option, lemma_dec_str_parses_back,
    lemma_help_concat, lemma_help_four, owned, Workload, DEFAULT_ALLOC_BYTES,
    DEFAULT_BENCH_FIB_N,
};

verus! {

/// Samples per runtime and workload when none is given.
pub const DEFAULT_SAMPLES: usize = 30;

/// The Docker image that is run when none is given.
pub const DEFAULT_DOCKER_IMAGE: &'static str = "my-docker-app:latest";

/// The plain Wasm artifact that is run when none is given.
pub const DEFAULT_WASM_ARTIFACT: &'static str = "target/wasm32-wasip1/release/my-app.wasm";

/// The AOT-compiled Wasm artifact that is run when none is given.
pub const DEFAULT_WASM_AOT_ARTIFACT: &'static str = "my-app-aot.wasm";

/// Where the per-sample CSV goes when no path is given.
pub const DEFAULT_OUTPUT_PATH: &'static str = "target/bench-results/local-bench.csv";

/// Where the summary CSV goes when no path is given.
pub const DEFAULT_SUMMARY_OUTPUT_PATH: &'static str = "target/bench-results/summary.csv";

/// The help text of the local benchmark driver.
pub const BENCH_USAGE: &'static str = "\
Usage:
  cargo run --bin bench_local --release -- [options]

Options:
  --samples <usize>         Number of sequential cold-start samples per workload (default: 30)
  --docker-image <tag>      Docker image tag to run (default: my-docker-app:latest)
  --wasm-artifact <path>    Plain Wasm artifact path for WasmEdge (default: target/wasm32-wasip1/release/my-app.wasm)
  --wasm-aot-artifact <path> AOT WasmEdge artifact path (default: my-app-aot.wasm)
  --output <path>           Detail CSV path (default: target/bench-results/local-bench.csv)
  --summary-output <path>   Summary CSV path (default: target/bench-results/summary.csv)";

/// The settings of a local benchmark run; paths are held as text.
#[derive(Clone, Debug, PartialEq)]
pub struct BenchConfig {
    pub samples: usize,
    pub docker_image: String,
    pub wasm_artifact: String,
    pub wasm_aot_artifact: String,
    pub output_path: String,
    pub summary_output_path: String,
}

/// The settings of a local benchmark run as plain values.
pub struct BenchSettings {
    pub samples: usize,
    pub docker_image: Seq<char>,
    pub wasm_artifact: Seq<char>,
    pub wasm_aot_artifact: Seq<char>,
    pub output_path: Seq<char>,
    pub summary_output_path: Seq<char>,
}

impl View for BenchConfig {
    type V = BenchSettings;

    open spec fn view(&self) -> BenchSettings {
        BenchSettings {
            samples: self.samples,
            docker_image: self.docker_image@,
            wasm_artifact: self.wasm_artifact@,
            wasm_aot_artifact: self.wasm_aot_artifact@,
            output_path: self.output_path@,
            summary_output_path: self.summary_output_path@,
        }
    }
}

/// The settings when no option is given.
pub open spec fn default_bench_settings() -> BenchSettings {
    BenchSettings {
        samples: DEFAULT_SAMPLES,
        docker_image: DEFAULT_DOCKER_IMAGE@,
        wasm_artifact: DEFAULT_WASM_ARTIFACT@,
        wasm_aot_artifact: DEFAULT_WASM_AOT_ARTIFACT@,
        output_path: DEFAULT_OUTPUT_PATH@,
        summary_output_path: DEFAULT_SUMMARY_OUTPUT_PATH@,
    }
}

/// Reads the options from index `i` on into `s`; the error is the message
/// for the first option that cannot be read.
pub open spec fn scan_bench_args(args: Seq<Seq<char>>, i: int, s: BenchSettings) -> Result<
    BenchSettings,
    Seq<char>,
>
    decreases args.len() - i,
{
    if i < 0 || i >= args.len() {
        Ok(s)
    } else {
        let a = args[i];
        let has_value = i + 1 < args.len();
        let v = args[i + 1];
        if a == "--samples"@ {
            if !has_value {
                Err("missing value for --samples"@)
            } else {
                match parse_unsigned_spec(v, usize::MAX as nat) {
                    None => Err("invalid value for --samples: "@ + v),
                    Some(n) => if n == 0 {
                        Err("--samples must be at least 1"@)
                    } else {
                        scan_bench_args(args, i + 2, BenchSettings { samples: n as usize, ..s })
                    },
                }
            }
        } else if a == "--docker-image"@ {
            if !has_value {
                Err("missing value for --docker-image"@)
            } else {
                scan_bench_args(args, i + 2, BenchSettings { docker_image: v, ..s })
            }
        } else if a == "--wasm-artifact"@ {
            if !has_value {
                Err("missing value for --wasm-artifact"@)
            } else {
                scan_bench_args(args, i + 2, BenchSettings { wasm_artifact: v, ..s })
            }
        } else if a == "--wasm-aot-artifact"@ {
            if !has_value {
                Err("missing value for --wasm-aot-artifact"@)
            } else {
                scan_bench_args(args, i + 2, BenchSettings { wasm_aot_artifact: v, ..s })
            }
        } else if a == "--output"@ {
            if !has_value {
                Err("missing value for --output"@)
            } else {
                scan_bench_args(args, i + 2, BenchSettings { output_path: v, ..s })
            }
        } else if a == "--summary-output"@ {
            if !has_value {
                Err("missing value for --summary-output"@)
            } else {
                scan_bench_args(args, i + 2, BenchSettings { summary_output_path: v, ..s })
            }
        } else {
            Err("unknown argument: "@ + a + "\n\n"@ + BENCH_USAGE@)
        }
    }
}

/// The settings that a command line selects; a help request is answered
/// with the error `--help`.
pub open spec fn parse_bench_args_spec(args: Seq<Seq<char>>) -> Result<BenchSettings, Seq<char>> {
    if help_requested(args) {
        Err("--help"@)
    } else {
        scan_bench_args(args, 0, default_bench_settings())
    }
}

/// The help text of the local benchmark driver.
pub fn bench_usage() -> (r: &'static str)
    ensures
        r@ == BENCH_USAGE@,
{
    BENCH_USAGE
}

/// A message made of two pieces.
fn message2(a: &str, b: &str) -> (r: String)
    ensures
        r@ == a@ + b@,
{
    let mut r = String::new();
    r.append(a);
    r.append(b);
    r
}

/// Parses the command line of the local benchmark driver (without the
/// program name). A help request gives the error `--help`.
pub fn parse_bench_args(args: Vec<String>) -> (r: Result<BenchConfig, String>)
    ensures
        match parse_bench_args_spec(arg_views(args@)) {
            Ok(s) => r matches Ok(c) && c@ == s,
            Err(m) => r matches Err(e) && e@ == m,
        },
{
    let ghost av = arg_views(args@);
    if crate::workload::any_help(&args) {
        return Err(owned("--help"));
    }
    let mut config = BenchConfig {
        samples: DEFAULT_SAMPLES,
        docker_image: owned(DEFAULT_DOCKER_IMAGE),
        wasm_artifact: owned(DEFAULT_WASM_ARTIFACT),
        wasm_aot_artifact: owned(DEFAULT_WASM_AOT_ARTIFACT),
        output_path: owned(DEFAULT_OUTPUT_PATH),
        summary_output_path: owned(DEFAULT_SUMMARY_OUTPUT_PATH),
    };
    let mut index: usize = 0;
    while index < args.len()
        invariant
            av == arg_views(args@),
            !help_requested(av),
            index <= args@.len(),
            scan_bench_args(av, 0, default_bench_settings()) == scan_bench_args(
                av,
                index as int,
                config@,
            ),
        decreases args@.len() - index,
    {
        let arg = args[index].as_str();
        assert(av[index as int] == arg@);
        let has_value = index + 1 < args.len();
        if has_value {
            assert(av[index + 1] == args@[index + 1]@);
        }
        if str_eq(arg, "--samples") {
            if !has_value {
                return Err(owned("missing value for --samples"));
            }
            let value = args[index + 1].as_str();
            match parse_unsigned(value, usize::MAX as u64) {
                None => {
                    return Err(message2("invalid value for --samples: ", value));
                },
                Some(n) => {
                    if n == 0 {
                        return Err(owned("--samples must be at least 1"));
                    }
                    config.samples = n as usize;
                },
            }
            index = index + 2;
        } else if str_eq(arg, "--docker-image") {
            if !has_value {
                return Err(owned("missing value for --docker-image"));
            }
            config.docker_image = args[index + 1].clone();
            index = index + 2;
        } else if str_eq(arg, "--wasm-artifact") {
            if !has_value {
                return Err(owned("missing value for --wasm-artifact"));
            }
            config.wasm_artifact = args[index + 1].clone();
            index = index + 2;
        } else if str_eq(arg, "--wasm-aot-artifact") {
            if !has_value {
                return Err(owned("missing value for --wasm-aot-artifact"));
            }
            config.wasm_aot_artifact = args[index + 1].clone();
            index = index + 2;
        } else if str_eq(arg, "--output") {
            if !has_value {
                return Err(owned("missing value for --output"));
            }
            config.output_path = args[index + 1].clone();
            index = index + 2;
        } else if str_eq(arg, "--summary-output") {
            if !has_value {
                return Err(owned("missing value for --summary-output"));
            }
            config.summary_output_path = args[index + 1].clone();
            index = index + 2;
        } else {
            let mut s = String::new();
            s.append("unknown argument: ");
            s.append(arg);
            s.append("\n\n");
            s.append(bench_usage());
            return Err(s);
        }
    }
    Ok(config)
}

/// The program and arguments that run one sample of a workload:
/// `wasmedge <artifact> <args>` or `docker run --rm <image> <args>`.
pub open spec fn sample_command_spec(
    runtime: Runtime,
    config: BenchSettings,
    workload_args: Seq<Seq<char>>,
) -> (Seq<char>, Seq<Seq<char>>) {
    match runtime {
        Runtime::WasmEdgeWasm => ("wasmedge"@, seq![config.wasm_artifact] + workload_args),
        Runtime::WasmEdgeAot => ("wasmedge"@, seq![config.wasm_aot_artifact] + workload_args),
        Runtime::Docker => ("docker"@, seq!["run"@, "--rm"@, config.docker_image] + workload_args),
    }
}

/// The program and arguments that run one sample of a workload.
pub fn sample_command(runtime: Runtime, config: &BenchConfig, workload_args: &Vec<String>) -> (r: (
    String,
    Vec<String>,
))
    ensures
        (r.0@, arg_views(r.1@)) == sample_command_spec(runtime, config@, arg_views(workload_args@)),
{
    let mut args: Vec<String> = Vec::new();
    let program = match runtime {
        Runtime::WasmEdgeWasm => {
            args.push(config.wasm_artifact.clone());
            owned("wasmedge")
        },
        Runtime::WasmEdgeAot => {
            args.push(config.wasm_aot_artifact.clone());
            owned("wasmedge")
        },
        Runtime::Docker => {
            args.push(owned("run"));
            args.push(owned("--rm"));
            args.push(config.docker_image.clone());
            owned("docker")
        },
    };
    let ghost head = arg_views(args@);
    let mut i: usize = 0;
    while i < workload_args.len()
        invariant
            i <= workload_args@.len(),
            arg_views(args@) == head + arg_views(workload_args@).take(i as int),
        decreases workload_args@.len() - i,
    {
        let c = workload_args[i].clone();
        assert(c@ == arg_views(workload_args@)[i as int]);
        let ghost old_args = args@;
        args.push(c);
        assert(arg_views(args@) =~= arg_views(old_args).push(c@));
        assert(arg_views(workload_args@).take(i + 1) =~= arg_views(workload_args@).take(i as int).push(c@));
        i = i + 1;
        assert(arg_views(args@) =~= head + arg_views(workload_args@).take(i as int));
    }
    assert(arg_views(workload_args@).take(i as int) =~= arg_views(workload_args@));
    assert(head + arg_views(workload_args@) =~= sample_command_spec(runtime, config@, arg_views(workload_args@)).1);
    (program, args)
}

/// Where the last line of `s` starts: just after its last newline, or at 0.
pub open spec fn last_line_start(s: Seq<char>) -> int
    decreases s.len(),
{
    if s.len() == 0 {
        0
    } else if s.last() == '\n' {
        s.len() as int
    } else {
        last_line_start(s.drop_last())
    }
}

/// The last line of `s` (split at newlines) that holds more than whitespace,
/// trimmed: what `s.lines().rev().find(|l| !l.trim().is_empty())` gives,
/// trimmed.
pub open spec fn last_nonblank_line_spec(s: Seq<char>) -> Option<Seq<char>>
    decreases s.len(),
{
    let k = last_line_start(s);
    if 0 <= k <= s.len() {
        let line = trim(s.skip(k));
        if line.len() > 0 {
            Some(line)
        } else if k == 0 {
            None
        } else {
            last_nonblank_line_spec(s.take(k - 1))
        }
    } else {
        None
    }
}

/// `last_line_start` lies inside the text, after a newline when not at 0.
proof fn lemma_last_line_start(s: Seq<char>)
    ensures
        0 <= last_line_start(s) <= s.len(),
        last_line_start(s) > 0 ==> s[last_line_start(s) - 1] == '\n',
        forall|k: int| last_line_start(s) <= k < s.len() ==> s[k] != '\n',
    decreases s.len(),
{
    if s.len() > 0 && s.last() != '\n' {
        lemma_last_line_start(s.drop_last());
        assert forall|k: int| last_line_start(s) <= k < s.len() implies s[k] != '\n' by {
            if k < s.len() - 1 {
                assert(s[k] == s.drop_last()[k]);
            }
        }
    }
}

/// Law: when the text holds more than whitespace, the line picked is, trimmed,
/// a whole line of the text (it starts at the beginning or after a newline,
/// ends at the end or at a newline, and holds no newline) that is not blank,
/// and everything after it is whitespace, so it is the last such line; when
/// the text is all whitespace, no line is picked.
pub proof fn lemma_last_nonblank_line(s: Seq<char>)
    ensures
        match last_nonblank_line_spec(s) {
            None => forall|i: int| 0 <= i < s.len() ==> is_whitespace(#[trigger] s[i]),
            Some(l) => exists|a: int, b: int|
                {
                    &&& 0 <= a <= b <= s.len()
                    &&& (a == 0 || s[a - 1] == '\n')
                    &&& (b == s.len() || s[b] == '\n')
                    &&& forall|i: int| a <= i < b ==> #[trigger] s[i] != '\n'
                    &&& l == trim(s.subrange(a, b))
                    &&& l.len() > 0
                    &&& forall|i: int| b <= i < s.len() ==> is_whitespace(#[trigger] s[i])
                },
        },
    decreases s.len(),
{
    lemma_last_line_start(s);
    let k = last_line_start(s);
    let tail = s.skip(k);
    let line = trim(tail);
    lemma_trim_is_slice(tail);
    assert(tail =~= s.subrange(k, s.len() as int));
    assert forall|i: int| k <= i < s.len() implies (#[trigger] s[i]) == tail[i - k] by {}
    if line.len() > 0 {
        assert(last_nonblank_line_spec(s) == Some(line));
        let b = s.len() as int;
        assert(forall|i: int| k <= i < b ==> #[trigger] s[i] != '\n');
    } else if k == 0 {
        assert forall|i: int| 0 <= i < s.len() implies is_whitespace(#[trigger] s[i]) by {
            assert(is_whitespace(tail[i]));
        }
    } else {
        let t = s.take(k - 1);
        assert(last_nonblank_line_spec(s) == last_nonblank_line_spec(t));
        lemma_last_nonblank_line(t);
        assert(is_whitespace('\n'));
        assert forall|i: int| k <= i < s.len() implies is_whitespace(#[trigger] s[i]) by {
            assert(is_whitespace(tail[i - k]));
        }
        match last_nonblank_line_spec(t) {
            None => {
                assert forall|i: int| 0 <= i < s.len() implies is_whitespace(#[trigger] s[i]) by {
                    if i < k - 1 {
                        assert(s[i] == t[i]);
                    }
                }
            },
            Some(l) => {
                let (a, b) = choose|a: int, b: int|
                    {
                        &&& 0 <= a <= b <= t.len()
                        &&& (a == 0 || t[a - 1] == '\n')
                        &&& (b == t.len() || t[b] == '\n')
                        &&& forall|i: int| a <= i < b ==> #[trigger] t[i] != '\n'
                        &&& l == trim(t.subrange(a, b))
                        &&& l.len() > 0
                        &&& forall|i: int| b <= i < t.len() ==> is_whitespace(#[trigger] t[i])
                    };
                assert(t.subrange(a, b) =~= s.subrange(a, b));
                assert forall|i: int| 0 <= i < k - 1 implies (#[trigger] s[i]) == t[i] by {}
                if a > 0 {
                    assert(s[a - 1] == t[a - 1]);
                }
                if b < t.len() {
                    assert(s[b] == t[b]);
                }
                assert forall|i: int| a <= i < b implies #[trigger] s[i] != '\n' by {
                    assert(s[i] == t[i]);
                }
                assert forall|i: int| b <= i < s.len() implies is_whitespace(#[trigger] s[i]) by {
                    if i < k - 1 {
                        assert(s[i] == t[i]);
                    }
                }
            },
        }
    }
}

/// The last line of `stdout` that holds more than whitespace, trimmed.
pub fn last_nonblank_line(stdout: &str) -> (r: Option<String>)
    ensures
        match last_nonblank_line_spec(stdout@) {
            Some(l) => r matches Some(s) && s@ == l,
            None => r is None,
        },
{
    let v = chars_of(stdout);
    let mut end = v.len();
    assert(v@.take(end as int) =~= v@);
    loop
        invariant
            end <= v@.len(),
            last_nonblank_line_spec(v@) == last_nonblank_line_spec(v@.take(end as int)),
            v@ == stdout@,
        decreases end,
    {
        let ghost s = v@.take(end as int);
        proof {
            lemma_last_line_start(s);
        }
        let mut start = end;
        assert(s.take(start as int) =~= s);
        while start > 0 && v[start - 1] != '\n'
            invariant
                start <= end <= v@.len(),
                s == v@.take(end as int),
                last_line_start(s) == last_line_start(s.take(start as int)),
            decreases start,
        {
            assert(s.take(start as int).drop_last() =~= s.take(start - 1));
            start = start - 1;
        }
        if start > 0 {
            assert(s.take(start as int).last() == '\n');
        }
        assert(last_line_start(s) == start);
        assert(s.skip(start as int) =~= v@.subrange(start as int, end as int));
        let (a, b) = trim_bounds(&v, start, end);
        if a < b {
            return Some(string_of(&v, a, b));
        }
        if start == 0 {
            return None;
        }
        assert(s.take(start - 1) =~= v@.take(start - 1));
        end = start - 1;
    }
}

/// `runtime workload sample n` at the head of a sample's messages.
fn sample_prefix(runtime_name: &str, workload_name: &str, sample: usize) -> (r: String)
    ensures
        r@ == runtime_name@ + " "@ + workload_name@ + " sample "@ + dec_str(sample as nat),
{
    let mut m = String::new();
    m.append(runtime_name);
    m.append(" ");
    m.append(workload_name);
    m.append(" sample ");
    let n = u64_to_string(sample as u64);
    m.append(n.as_str());
    m
}

/// The message for a sample whose process failed.
pub fn sample_failure_message(
    runtime_name: &str,
    workload_name: &str,
    sample: usize,
    exit_code: i32,
    stderr: &str,
) -> (r: String)
    ensures
        r@ == runtime_name@ + " "@ + workload_name@ + " sample "@ + dec_str(sample as nat)
            + " failed with exit code "@ + int_str(exit_code as int) + ": "@ + trim(stderr@),
{
    let mut m = sample_prefix(runtime_name, workload_name, sample);
    m.append(" failed with exit code ");
    let c = i32_to_string(exit_code);
    m.append(c.as_str());
    m.append(": ");
    let e = crate::text::trim_str(stderr);
    m.append(e.as_str());
    m
}

/// The message for a sample that printed nothing but whitespace.
pub fn no_stdout_message(runtime_name: &str, workload_name: &str, sample: usize) -> (r: String)
    ensures
        r@ == runtime_name@ + " "@ + workload_name@ + " sample "@ + dec_str(sample as nat)
            + " produced no stdout"@,
{
    let mut m = sample_prefix(runtime_name, workload_name, sample);
    m.append(" produced no stdout");
    m
}

/// The message for a sample whose report line could not be read.
pub fn invalid_json_message(
    runtime_name: &str,
    workload_name: &str,
    sample: usize,
    error: &str,
) -> (r: String)
    ensures
        r@ == runtime_name@ + " "@ + workload_name@ + " sample "@ + dec_str(sample as nat)
            + " produced invalid JSON output: "@ + error@,
{
    let mut m = sample_prefix(runtime_name, workload_name, sample);
    m.append(" produced invalid JSON output: ");
    m.append(error);
    m
}

/// The index that the nearest-rank method picks for a percentile of sorted
/// values: rank `ceil(percentile * len / 100)`, counted from 1 and kept
/// inside the values.
pub open spec fn nearest_rank_index_spec(len: nat, percentile: nat) -> int {
    let rank = (percentile * len + 99) / 100;
    let idx = if rank >= 1 {
        rank - 1
    } else {
        0
    };
    if idx < len - 1 {
        idx
    } else {
        len - 1
    }
}

/// The index of the percentile value among `len` sorted values, by the
/// nearest-rank method.
pub fn nearest_rank_index(len: usize, percentile: usize) -> (r: usize)
    requires
        len > 0,
        percentile * len + 99 <= usize::MAX,
    ensures
        r == nearest_rank_index_spec(len as nat, percentile as nat),
        r < len,
{
    let rank = ((percentile * len) + 99) / 100;
    let index = rank.saturating_sub(1);
    if index < len - 1 {
        index
    } else {
        len - 1
    }
}

/// Law: for a percentile `p` up to 100, the nearest-rank index is the
/// smallest index `r` whose rank `r + 1` covers `p` percent of the values,
/// i.e. `100 * (r + 1) >= p * len`; a percentile of 100 or more picks the
/// largest value; the index always lies among the values.
pub proof fn lemma_nearest_rank(len: nat, p: nat)
    requires
        len > 0,
    ensures
        0 <= nearest_rank_index_spec(len, p) < len,
        p <= 100 ==> 100 * (nearest_rank_index_spec(len, p) + 1) >= p * len,
        p <= 100 && nearest_rank_index_spec(len, p) > 0 ==> 100 * nearest_rank_index_spec(len, p)
            < p * len,
        p >= 100 ==> nearest_rank_index_spec(len, p) == len - 1,
{
    let rank = (p * len + 99) / 100;
    assert(100 * rank <= p * len + 99 && p * len + 99 < 100 * rank + 100) by (nonlinear_arith)
        requires
            rank == (p * len + 99) / 100,
    ;
    if p <= 100 {
        assert(p * len <= 100 * len) by (nonlinear_arith)
            requires
                p <= 100,
        ;
    } else {
        assert(p * len >= 100 * len) by (nonlinear_arith)
            requires
                p >= 100,
        ;
    }
    if p == 100 {
        assert(p * len == 100 * len);
    }
}

/// The workloads that the local benchmark runs, in order.
pub open spec fn bench_workloads_spec() -> Seq<Workload> {
    seq![
        Workload::Noop,
        Workload::Fib { n: DEFAULT_BENCH_FIB_N },
        Workload::AllocTouch { bytes: DEFAULT_ALLOC_BYTES, hold_ms: 0 },
    ]
}

/// The workloads that the local benchmark runs, in order.
pub fn bench_workloads() -> (r: Vec<Workload>)
    ensures
        r@ == bench_workloads_spec(),
{
    let r = vec![
        Workload::Noop,
        Workload::Fib { n: DEFAULT_BENCH_FIB_N },
        Workload::AllocTouch { bytes: DEFAULT_ALLOC_BYTES, hold_ms: 0 },
    ];
    assert(r@ =~= bench_workloads_spec());
    r
}

/// The identity of one sample record: runtime name, workload name,
/// workload parameter.
pub struct SampleKey {
    pub runtime: String,
    pub workload: String,
    pub parameter: String,
}

/// A sample key as plain values.
pub open spec fn key_view(k: SampleKey) -> (Seq<char>, Seq<char>, Seq<char>) {
    (k.runtime@, k.workload@, k.parameter@)
}

/// Whether a record belongs to the group of a runtime and a workload.
pub open spec fn in_group(k: (Seq<char>, Seq<char>, Seq<char>), runtime: Runtime, w: Workload) -> bool {
    k.0 == runtime.name_spec() && k.1 == w.name_spec() && k.2 == w.parameter_spec()
}

/// The indices, in order, among the first `n` records of the group of a
/// runtime and a workload.
pub open spec fn group_indices(
    keys: Seq<(Seq<char>, Seq<char>, Seq<char>)>,
    runtime: Runtime,
    w: Workload,
    n: int,
) -> Seq<usize>
    decreases n,
{
    if n <= 0 {
        Seq::empty()
    } else if in_group(keys[n - 1], runtime, w) {
        group_indices(keys, runtime, w, n - 1).push((n - 1) as usize)
    } else {
        group_indices(keys, runtime, w, n - 1)
    }
}

/// The runtime and workload of the `k`-th summary slot (runtime-major).
pub open spec fn summary_slot(k: int) -> (Runtime, Workload) {
    (
        seq![Runtime::WasmEdgeWasm, Runtime::WasmEdgeAot, Runtime::Docker][k / 3],
        bench_workloads_spec()[k % 3],
    )
}

/// The nonempty groups of the summary slots from `k` on.
pub open spec fn summary_groups_from(keys: Seq<(Seq<char>, Seq<char>, Seq<char>)>, k: int) -> Seq<
    (Runtime, Workload, Seq<usize>),
>
    decreases 9 - k,
{
    if k < 0 || k >= 9 {
        Seq::empty()
    } else {
        let (r, w) = summary_slot(k);
        let g = group_indices(keys, r, w, keys.len() as int);
        if g.len() > 0 {
            seq![(r, w, g)] + summary_groups_from(keys, k + 1)
        } else {
            summary_groups_from(keys, k + 1)
        }
    }
}

/// One group of the summary.
pub struct SummaryGroup {
    pub runtime: Runtime,
    pub workload: Workload,
    pub indices: Vec<usize>,
}

/// A summary group as plain values.
pub open spec fn group_view(g: SummaryGroup) -> (Runtime, Workload, Seq<usize>) {
    (g.runtime, g.workload, g.indices@)
}

/// The indices of the records in the group of a runtime and a workload.
fn group_of(keys: &Vec<SampleKey>, runtime: Runtime, w: &Workload) -> (r: Vec<usize>)
    ensures
        r@ == group_indices(keys@.map_values(|k: SampleKey| key_view(k)), runtime, *w, keys@.len() as int),
{
    let ghost kv = keys@.map_values(|k: SampleKey| key_view(k));
    let name = runtime.name();
    let wname = w.name();
    let parameter = w.parameter();
    let mut r: Vec<usize> = Vec::new();
    let mut i: usize = 0;
    while i < keys.len()
        invariant
            i <= keys@.len(),
            kv == keys@.map_values(|k: SampleKey| key_view(k)),
            name@ == runtime.name_spec(),
            wname@ == w.name_spec(),
            parameter@ == w.parameter_spec(),
            r@ == group_indices(kv, runtime, *w, i as int),
        decreases keys@.len() - i,
    {
        let k = &keys[i];
        assert(kv[i as int] == key_view(*k));
        if str_eq(k.runtime.as_str(), name) && str_eq(k.workload.as_str(), wname) && str_eq(
            k.parameter.as_str(),
            parameter.as_str(),
        ) {
            r.push(i);
        }
        i = i + 1;
    }
    r
}

/// The groups that the summary reports, runtime by runtime and workload by
/// workload in the benchmark's order: each holds the indices of the records
/// with that runtime name, workload name and parameter; empty groups are
/// left out.
pub fn summary_groups(keys: &Vec<SampleKey>) -> (r: Vec<SummaryGroup>)
    ensures
        r@.map_values(|g: SummaryGroup| group_view(g)) == summary_groups_from(
            keys@.map_values(|k: SampleKey| key_view(k)),
            0,
        ),
{
    let ghost kv = keys@.map_values(|k: SampleKey| key_view(k));
    let runtimes = Runtime::all();
    let mut out: Vec<SummaryGroup> = Vec::new();
    let mut k: usize = 0;
    while k < 9
        invariant
            k <= 9,
            kv == keys@.map_values(|k: SampleKey| key_view(k)),
            runtimes@ == seq![Runtime::WasmEdgeWasm, Runtime::WasmEdgeAot, Runtime::Docker],
            out@.map_values(|g: SummaryGroup| group_view(g)) + summary_groups_from(kv, k as int)
                == summary_groups_from(kv, 0),
        decreases 9 - k,
    {
        let runtime = runtimes[k / 3];
        let w = if k % 3 == 0 {
            Workload::Noop
        } else if k % 3 == 1 {
            Workload::Fib { n: DEFAULT_BENCH_FIB_N }
        } else {
            Workload::AllocTouch { bytes: DEFAULT_ALLOC_BYTES, hold_ms: 0 }
        };
        assert(w == bench_workloads_spec()[(k % 3) as int]);
        let indices = group_of(keys, runtime, &w);
        let ghost before = out@.map_values(|g: SummaryGroup| group_view(g));
        if indices.len() > 0 {
            out.push(SummaryGroup { runtime, workload: w, indices });
            assert(out@.map_values(|g: SummaryGroup| group_view(g)) =~= before + seq![
                summary_groups_from(kv, k as int)[0],
            ]);
        }
        k = k + 1;
    }
    assert(summary_groups_from(kv, 9) =~= Seq::<(Runtime, Workload, Seq<usize>)>::empty());
    out
}

/// The indices of a group are, in increasing order, exactly the records
/// among the first `n` that belong to it.
proof fn lemma_group_indices(
    keys: Seq<(Seq<char>, Seq<char>, Seq<char>)>,
    runtime: Runtime,
    w: Workload,
    n: int,
)
    requires
        0 <= n <= keys.len() <= usize::MAX,
    ensures
        ({
            let g = group_indices(keys, runtime, w, n);
            &&& forall|j: int|
                0 <= j < g.len() ==> (#[trigger] g[j] as int) < n && in_group(keys[g[j] as int], runtime, w)
            &&& forall|j1: int, j2: int| 0 <= j1 < j2 < g.len() ==> #[trigger] g[j1] < #[trigger] g[j2]
            &&& forall|i: int| 0 <= i < n && in_group(#[trigger] keys[i], runtime, w) ==> g.contains(i as usize)
        }),
    decreases n,
{
    if n > 0 {
        lemma_group_indices(keys, runtime, w, n - 1);
        let g0 = group_indices(keys, runtime, w, n - 1);
        let g = group_indices(keys, runtime, w, n);
        if in_group(keys[n - 1], runtime, w) {
            assert(g == g0.push((n - 1) as usize));
            assert(g[g0.len() as int] == (n - 1) as usize);
            assert forall|j: int| 0 <= j < g.len() implies (#[trigger] g[j] as int) < n && in_group(
                keys[g[j] as int],
                runtime,
                w,
            ) by {
                if j < g0.len() {
                    assert(g[j] == g0[j]);
                    assert(in_group(keys[g0[j] as int], runtime, w));
                }
            }
            assert forall|j1: int, j2: int| 0 <= j1 < j2 < g.len() implies #[trigger] g[j1] < #[trigger] g[j2] by {
                assert(g[j1] == g0[j1]);
                if j2 < g0.len() {
                    assert(g[j2] == g0[j2]);
                } else {
                    assert((g0[j1] as int) < n - 1);
                }
            }
            assert forall|i: int| 0 <= i < n && in_group(#[trigger] keys[i], runtime, w) implies g.contains(i as usize) by {
                if i < n - 1 {
                    let j = choose|j: int| 0 <= j < g0.len() && g0[j] == i as usize;
                    assert(g[j] == g0[j]);
                } else {
                    assert(g[g0.len() as int] == i as usize);
                }
            }
        } else {
            assert(g == g0);
        }
    }
}

/// The groups of the slots from `k` on come from increasing slots, each
/// with its nonempty group, and every slot from `k` on whose group is not
/// empty is among them.
proof fn lemma_summary_groups_from(keys: Seq<(Seq<char>, Seq<char>, Seq<char>)>, k: int) -> (ks: Seq<int>)
    requires
        0 <= k <= 9,
    ensures
        ks.len() == summary_groups_from(keys, k).len(),
        forall|j: int|
            0 <= j < ks.len() ==> {
                &&& k <= #[trigger] ks[j] < 9
                &&& summary_groups_from(keys, k)[j] == (
                    summary_slot(ks[j]).0,
                    summary_slot(ks[j]).1,
                    group_indices(keys, summary_slot(ks[j]).0, summary_slot(ks[j]).1, keys.len() as int),
                )
                &&& group_indices(keys, summary_slot(ks[j]).0, summary_slot(ks[j]).1, keys.len() as int).len() > 0
            },
        forall|j1: int, j2: int| 0 <= j1 < j2 < ks.len() ==> #[trigger] ks[j1] < #[trigger] ks[j2],
        forall|kk: int|
            k <= kk < 9 && group_indices(keys, summary_slot(kk).0, summary_slot(kk).1, keys.len() as int).len()
                > 0 ==> #[trigger] ks.contains(kk),
    decreases 9 - k,
{
    if k >= 9 {
        Seq::empty()
    } else {
        let rest = lemma_summary_groups_from(keys, k + 1);
        let (r, w) = summary_slot(k);
        let g = group_indices(keys, r, w, keys.len() as int);
        if g.len() > 0 {
            let ks = seq![k] + rest;
            let gs = summary_groups_from(keys, k);
            assert(gs == seq![(r, w, g)] + summary_groups_from(keys, k + 1));
            assert forall|j: int| 0 < j < ks.len() implies ks[j] == rest[j - 1] && gs[j] == summary_groups_from(keys, k + 1)[j - 1] by {}
            assert forall|kk: int|
                k <= kk < 9 && group_indices(keys, summary_slot(kk).0, summary_slot(kk).1, keys.len() as int).len()
                    > 0 implies #[trigger] ks.contains(kk) by {
                if kk == k {
                    assert(ks[0] == k);
                } else {
                    assert(rest.contains(kk));
                    let j = choose|j: int| 0 <= j < rest.len() && rest[j] == kk;
                    assert(ks[j + 1] == kk);
                }
            }
            ks
        } else {
            rest
        }
    }
}

/// Law: the summary has no empty group and no group twice; each group is a
/// benchmarked runtime and workload and holds, in increasing order, exactly
/// the indices of the records of that runtime and workload; and every
/// record of a benchmarked runtime and workload lies in a group.
pub proof fn lemma_summary_groups(keys: Seq<(Seq<char>, Seq<char>, Seq<char>)>)
    requires
        keys.len() <= usize::MAX,
    ensures
        ({
            let gs = summary_groups_from(keys, 0);
            &&& forall|j: int|
                0 <= j < gs.len() ==> (#[trigger] gs[j]).2.len() > 0 && bench_workloads_spec().contains(gs[j].1)
            &&& forall|j: int, i: int|
                0 <= j < gs.len() && 0 <= i < keys.len() ==> ((#[trigger] gs[j]).2.contains(i as usize)
                    <==> in_group(#[trigger] keys[i], gs[j].0, gs[j].1))
            &&& forall|j: int, t1: int, t2: int|
                0 <= j < gs.len() && 0 <= t1 < t2 < gs[j].2.len() ==> #[trigger] gs[j].2[t1]
                    < #[trigger] gs[j].2[t2]
            &&& forall|j1: int, j2: int|
                0 <= j1 < j2 < gs.len() ==> !((#[trigger] gs[j1]).0 == (#[trigger] gs[j2]).0 && gs[j1].1 == gs[j2].1)
            &&& forall|i: int, r: Runtime, w: Workload|
                0 <= i < keys.len() && bench_workloads_spec().contains(w) && #[trigger] in_group(keys[i], r, w)
                    ==> exists|j: int| 0 <= j < gs.len() && (#[trigger] gs[j]).0 == r && gs[j].1 == w
        }),
{
    let gs = summary_groups_from(keys, 0);
    let ks = lemma_summary_groups_from(keys, 0);
    let n = keys.len() as int;
    let wl = bench_workloads_spec();
    assert forall|j: int| 0 <= j < gs.len() implies (#[trigger] gs[j]).2.len() > 0 && wl.contains(gs[j].1) by {
        assert(0 <= ks[j] < 9);
        assert(wl[ks[j] % 3] == gs[j].1);
    }
    assert forall|j: int, i: int|
        0 <= j < gs.len() && 0 <= i < keys.len() implies ((#[trigger] gs[j]).2.contains(i as usize)
            <==> in_group(#[trigger] keys[i], gs[j].0, gs[j].1)) by {
        assert(0 <= ks[j] < 9);
        lemma_group_indices(keys, gs[j].0, gs[j].1, n);
        if gs[j].2.contains(i as usize) {
            let t = choose|t: int| 0 <= t < gs[j].2.len() && gs[j].2[t] == i as usize;
            assert(in_group(keys[gs[j].2[t] as int], gs[j].0, gs[j].1));
        }
    }
    assert forall|j: int, t1: int, t2: int|
        0 <= j < gs.len() && 0 <= t1 < t2 < gs[j].2.len() implies #[trigger] gs[j].2[t1]
            < #[trigger] gs[j].2[t2] by {
        assert(0 <= ks[j] < 9);
        lemma_group_indices(keys, gs[j].0, gs[j].1, n);
    }
    assert forall|j1: int, j2: int|
        0 <= j1 < j2 < gs.len() implies !((#[trigger] gs[j1]).0 == (#[trigger] gs[j2]).0 && gs[j1].1 == gs[j2].1) by {
        assert(0 <= ks[j1] < ks[j2] < 9);
    }
    assert forall|i: int, r: Runtime, w: Workload|
        0 <= i < keys.len() && wl.contains(w) && #[trigger] in_group(keys[i], r, w)
            implies exists|j: int| 0 <= j < gs.len() && (#[trigger] gs[j]).0 == r && gs[j].1 == w by {
        let wi = choose|wi: int| 0 <= wi < 3 && wl[wi] == w;
        let ri: int = match r {
            Runtime::WasmEdgeWasm => 0,
            Runtime::WasmEdgeAot => 1,
            Runtime::Docker => 2,
        };
        let kk = 3 * ri + wi;
        assert(summary_slot(kk) == (r, w));
        lemma_group_indices(keys, r, w, n);
        assert(group_indices(keys, r, w, n).contains(i as usize));
        assert(ks.contains(kk));
        let j = choose|j: int| 0 <= j < ks.len() && ks[j] == kk;
        assert(gs[j].0 == r && gs[j].1 == w);
    }
}

/// Law: whatever the runtime, the arguments that reach the application
/// after the runtime's own ones are the workload's own command line, which
/// asks for no help and which the application reads back as that workload;
/// every runtime thus runs the same workload.
pub proof fn lemma_sample_command_runs_workload(runtime: Runtime, config: BenchSettings, w: Workload)
    ensures
        ({
            let args = sample_command_spec(runtime, config, w.cli_args_spec()).1;
            let own: int = if runtime == Runtime::Docker {
                3
            } else {
                1
            };
            &&& args.skip(own) == w.cli_args_spec()
            &&& !help_requested(args.skip(own))
            &&& crate::workload::parse_app_args_spec(args.skip(own)) == Ok::<Workload, Seq<char>>(w)
        }),
{
    let args = sample_command_spec(runtime, config, w.cli_args_spec()).1;
    let own: int = if runtime == Runtime::Docker {
        3
    } else {
        1
    };
    assert(args.skip(own) =~= w.cli_args_spec());
    crate::workload::lemma_cli_args_parse_back(w);
}

} // verus!

verus! {

/// Whether an option and its value, given alone, are read without error.
pub open spec fn bench_option_accepted(flag: Seq<char>, value: Seq<char>) -> bool {
    scan_bench_args(seq![flag, value], 0, default_bench_settings()) is Ok
}

/// Reading an option with its value depends on the settings read before
/// only through what it sets, and fails the same way whatever they were.
proof fn lemma_bench_step(args: Seq<Seq<char>>, i: int, s: BenchSettings, h: BenchSettings)
    requires
        0 <= i,
        i + 1 < args.len(),
    ensures
        scan_bench_args(args, i, s) == match scan_bench_args(seq![args[i], args[i + 1]], 0, s) {
            Ok(g) => scan_bench_args(args, i + 2, g),
            Err(e) => Err(e),
        },
        (scan_bench_args(seq![args[i], args[i + 1]], 0, s) is Ok) == (scan_bench_args(
            seq![args[i], args[i + 1]],
            0,
            h,
        ) is Ok),
        scan_bench_args(seq![args[i], args[i + 1]], 0, s) is Err ==> scan_bench_args(
            seq![args[i], args[i + 1]],
            0,
            s,
        ) == scan_bench_args(seq![args[i], args[i + 1]], 0, h),
{
    reveal_with_fuel(scan_bench_args, 2);
    let pair = seq![args[i], args[i + 1]];
    assert(pair[0] == args[i] && pair[1] == args[i + 1]);
}

/// Reading a command line that starts with a prefix read without error goes
/// on, after the prefix, from the settings of the prefix.
proof fn lemma_bench_scan_prefix(pre: Seq<Seq<char>>, x: Seq<Seq<char>>, i: int, s: BenchSettings)
    requires
        0 <= i <= pre.len(),
        scan_bench_args(pre, i, s) is Ok,
    ensures
        scan_bench_args(pre + x, i, s) == scan_bench_args(
            pre + x,
            pre.len() as int,
            scan_bench_args(pre, i, s)->Ok_0,
        ),
    decreases pre.len() - i,
{
    let a = pre + x;
    if i < pre.len() {
        if i + 1 >= pre.len() {
            assert(scan_bench_args(pre, i, s) is Err);
        }
        assert(a[i] == pre[i] && a[i + 1] == pre[i + 1]);
        lemma_bench_step(pre, i, s, s);
        lemma_bench_step(a, i, s, s);
        let g = scan_bench_args(seq![pre[i], pre[i + 1]], 0, s)->Ok_0;
        lemma_bench_scan_prefix(pre, x, i + 2, g);
    }
}

/// Reading from index `j` on depends only on the arguments from `j` on.
proof fn lemma_bench_scan_suffix(a: Seq<Seq<char>>, b: Seq<Seq<char>>, j: int, s: BenchSettings)
    requires
        0 <= j,
        a.len() == b.len(),
        forall|k: int| j <= k < a.len() ==> a[k] == b[k],
    ensures
        scan_bench_args(a, j, s) == scan_bench_args(b, j, s),
    decreases a.len() - j,
{
    if j + 1 < a.len() {
        lemma_bench_step(a, j, s, s);
        lemma_bench_step(b, j, s, s);
        assert(seq![a[j], a[j + 1]] == seq![b[j], b[j + 1]]);
        match scan_bench_args(seq![a[j], a[j + 1]], 0, s) {
            Ok(g) => lemma_bench_scan_suffix(a, b, j + 2, g),
            Err(_) => {},
        }
    } else if j < a.len() {
        assert(a[j] == b[j]);
    }
}

/// Reading a whole command line that a prefix read without error begins.
proof fn lemma_bench_parse_append(pre: Seq<Seq<char>>, x: Seq<Seq<char>>)
    requires
        parse_bench_args_spec(pre) is Ok,
        !help_requested(x),
    ensures
        parse_bench_args_spec(pre + x) == scan_bench_args(
            pre + x,
            pre.len() as int,
            parse_bench_args_spec(pre)->Ok_0,
        ),
{
    lemma_help_concat(pre, x);
    lemma_bench_scan_prefix(pre, x, 0, default_bench_settings());
}

/// Law: appending an option that names a path or an image, with any value
/// that is not a help request, to a command line that is read without error
/// stores that value in its own setting and leaves every other setting as
/// the rest of the command line gives it.
pub proof fn lemma_bench_option_sets_its_field(pre: Seq<Seq<char>>, flag: Seq<char>, v: Seq<char>)
    requires
        parse_bench_args_spec(pre) is Ok,
        v != "--help"@,
        v != "-h"@,
    ensures
        ({
            let s = parse_bench_args_spec(pre)->Ok_0;
            let t = parse_bench_args_spec(pre + seq![flag, v]);
            &&& flag == "--docker-image"@ ==> t == Ok::<BenchSettings, Seq<char>>(
                BenchSettings { docker_image: v, ..s },
            )
            &&& flag == "--wasm-artifact"@ ==> t == Ok::<BenchSettings, Seq<char>>(
                BenchSettings { wasm_artifact: v, ..s },
            )
            &&& flag == "--wasm-aot-artifact"@ ==> t == Ok::<BenchSettings, Seq<char>>(
                BenchSettings { wasm_aot_artifact: v, ..s },
            )
            &&& flag == "--output"@ ==> t == Ok::<BenchSettings, Seq<char>>(
                BenchSettings { output_path: v, ..s },
            )
            &&& flag == "--summary-output"@ ==> t == Ok::<BenchSettings, Seq<char>>(
                BenchSettings { summary_output_path: v, ..s },
            )
        }),
{
    reveal_strlit("--help");
    reveal_strlit("-h");
    reveal_strlit("--samples");
    reveal_strlit("--docker-image");
    reveal_strlit("--wasm-artifact");
    reveal_strlit("--wasm-aot-artifact");
    reveal_strlit("--output");
    reveal_strlit("--summary-output");
    let x = seq![flag, v];
    let a = pre + x;
    let p = pre.len() as int;
    let s = parse_bench_args_spec(pre)->Ok_0;
    if flag == "--docker-image"@ || flag == "--wasm-artifact"@ || flag == "--wasm-aot-artifact"@
        || flag == "--output"@ || flag == "--summary-output"@ {
        assert("--help"@.len() == 6 && "-h"@.len() == 2);
        assert("--docker-image"@.len() == 14 && "--wasm-artifact"@.len() == 15);
        assert("--wasm-aot-artifact"@.len() == 19 && "--output"@.len() == 8);
        assert("--summary-output"@.len() == 16);
        assert(flag != "--help"@ && flag != "-h"@);
        assert(!help_requested(x)) by {
            if help_requested(x) {
                let i = choose|i: int| 0 <= i < x.len() && (#[trigger] x[i] == "--help"@ || x[i] == "-h"@);
                assert(i == 0 || i == 1);
            }
        }
        lemma_bench_parse_append(pre, x);
        assert(a[p] == flag && a[p + 1] == v);
        reveal_with_fuel(scan_bench_args, 2);
    }
}

/// Law: appending `--samples n`, for the decimal notation of any `n` that
/// fits in `usize`, to a command line that is read without error sets the
/// sample count to `n` and leaves every other setting as it was, except for
/// `n = 0`, the one count that is refused.
pub proof fn lemma_bench_samples_sets_its_field(pre: Seq<Seq<char>>, n: nat)
    requires
        parse_bench_args_spec(pre) is Ok,
        n <= usize::MAX,
    ensures
        ({
            let s = parse_bench_args_spec(pre)->Ok_0;
            let t = parse_bench_args_spec(pre + seq!["--samples"@, dec_str(n)]);
            if n == 0 {
                t == Err::<BenchSettings, Seq<char>>("--samples must be at least 1"@)
            } else {
                t == Ok::<BenchSettings, Seq<char>>(BenchSettings { samples: n as usize, ..s })
            }
        }),
{
    reveal_strlit("--help");
    reveal_strlit("-h");
    reveal_strlit("--samples");
    let x = seq!["--samples"@, dec_str(n)];
    let a = pre + x;
    let p = pre.len() as int;
    lemma_dec_str_not_option(n);
    lemma_dec_str_parses_back(n, usize::MAX as nat);
    assert("--help"@.len() == 6 && "-h"@.len() == 2 && "--samples"@.len() == 9);
    assert(!help_requested(x)) by {
        if help_requested(x) {
            let i = choose|i: int| 0 <= i < x.len() && (#[trigger] x[i] == "--help"@ || x[i] == "-h"@);
            assert(i == 0 || i == 1);
        }
    }
    lemma_bench_parse_append(pre, x);
    assert(a[p] == "--samples"@ && a[p + 1] == dec_str(n));
    reveal_with_fuel(scan_bench_args, 2);
}

/// Law: options are read independently of their order. Exchanging two
/// neighbouring options (each with its value), after a prefix of whole
/// options that is read without error, changes nothing in what
/// `parse_bench_args` answers; provided at least one of the two is
/// accepted, and, when both are, that they are different options.
pub proof fn lemma_bench_args_swap(
    pre: Seq<Seq<char>>,
    f1: Seq<char>,
    v1: Seq<char>,
    f2: Seq<char>,
    v2: Seq<char>,
    post: Seq<Seq<char>>,
)
    requires
        scan_bench_args(pre, 0, default_bench_settings()) is Ok,
        bench_option_accepted(f1, v1) || bench_option_accepted(f2, v2),
        bench_option_accepted(f1, v1) && bench_option_accepted(f2, v2) ==> f1 != f2,
    ensures
        parse_bench_args_spec(pre + seq![f1, v1, f2, v2] + post) == parse_bench_args_spec(
            pre + seq![f2, v2, f1, v1] + post,
        ),
{
    let a = pre + seq![f1, v1, f2, v2] + post;
    let b = pre + seq![f2, v2, f1, v1] + post;
    let p = pre.len() as int;
    let d = default_bench_settings();
    assert(a == pre + (seq![f1, v1, f2, v2] + post));
    assert(b == pre + (seq![f2, v2, f1, v1] + post));
    assert(a[p] == f1 && a[p + 1] == v1 && a[p + 2] == f2 && a[p + 3] == v2);
    assert(b[p] == f2 && b[p + 1] == v2 && b[p + 2] == f1 && b[p + 3] == v1);
    lemma_help_concat(pre + seq![f1, v1, f2, v2], post);
    lemma_help_concat(pre + seq![f2, v2, f1, v1], post);
    lemma_help_concat(pre, seq![f1, v1, f2, v2]);
    lemma_help_concat(pre, seq![f2, v2, f1, v1]);
    lemma_help_four(f1, v1, f2, v2);
    let g = scan_bench_args(pre, 0, d)->Ok_0;
    lemma_bench_scan_prefix(pre, seq![f1, v1, f2, v2] + post, 0, d);
    lemma_bench_scan_prefix(pre, seq![f2, v2, f1, v1] + post, 0, d);
    lemma_bench_step(a, p, g, d);
    lemma_bench_step(b, p, g, d);
    assert(seq![a[p], a[p + 1]] == seq![f1, v1]);
    assert(seq![b[p], b[p + 1]] == seq![f2, v2]);
    assert(seq![a[p + 2], a[p + 3]] == seq![f2, v2]);
    assert(seq![b[p + 2], b[p + 3]] == seq![f1, v1]);
    if bench_option_accepted(f1, v1) && bench_option_accepted(f2, v2) {
        lemma_bench_steps_commute(f1, v1, f2, v2, g);
        let g1 = scan_bench_args(seq![f1, v1], 0, g)->Ok_0;
        let g2 = scan_bench_args(seq![f2, v2], 0, g)->Ok_0;
        lemma_bench_step(a, p + 2, g1, d);
        lemma_bench_step(b, p + 2, g2, d);
        let g12 = scan_bench_args(seq![f2, v2], 0, g1)->Ok_0;
        lemma_bench_scan_suffix(a, b, p + 4, g12);
    } else if bench_option_accepted(f1, v1) {
        let g1 = scan_bench_args(seq![f1, v1], 0, g)->Ok_0;
        lemma_bench_step(a, p + 2, g1, d);
        lemma_bench_step(b, p + 2, g, g1);
        lemma_bench_step(b, p + 2, g, d);
        lemma_bench_step(a, p + 2, g1, g);
    } else {
        let g2 = scan_bench_args(seq![f2, v2], 0, g)->Ok_0;
        lemma_bench_step(b, p + 2, g2, d);
        lemma_bench_step(a, p, g, g2);
        lemma_bench_step(b, p + 2, g2, g);
        lemma_bench_step(a, p + 2, g, d);
    }
}

/// Two options that name different settings, read one after the other,
/// give the same settings whichever comes first.
proof fn lemma_bench_steps_commute(f1: Seq<char>, v1: Seq<char>, f2: Seq<char>, v2: Seq<char>, g: BenchSettings)
    requires
        bench_option_accepted(f1, v1),
        bench_option_accepted(f2, v2),
        f1 != f2,
    ensures
        scan_bench_args(seq![f1, v1], 0, g) is Ok,
        scan_bench_args(seq![f2, v2], 0, g) is Ok,
        scan_bench_args(seq![f2, v2], 0, scan_bench_args(seq![f1, v1], 0, g)->Ok_0)
            == scan_bench_args(seq![f1, v1], 0, scan_bench_args(seq![f2, v2], 0, g)->Ok_0),
{
    reveal_with_fuel(scan_bench_args, 2);
    let p1 = seq![f1, v1];
    let p2 = seq![f2, v2];
    assert(p1[0] == f1 && p1[1] == v1);
    assert(p2[0] == f2 && p2[1] == v2);
}

} // verus!
