//! The decisions of the deployment-size benchmark driver: its command line,
//! the commands it runs, and the reading of what those commands print.

use vstd::prelude::*;

use crate::decimal::{
    dec_str, first_pos, int_str, is_float_literal, is_float_text, parse_i32, parse_i32_spec,
    parse_unsigned, parse_unsigned_spec, position_of, u64_to_string,
};
use crate::text::{
    chars_of, contains_any, lemma_replace_is_scan, replace, replace_scan, replace_str, str_eq,
    string_of, trim, trim_bounds, trim_str,
};
use crate::workload::{
    arg_views, help_requested, lemma_dec_str_not_option, lemma_dec_str_parses_back,
    lemma_help_concat, lemma_help_four, owned, Workload, DEFAULT_ALLOC_BYTES,
};

verus! {

/// The Docker image that is measured when none is given.
pub const DEFAULT_DOCKER_IMAGE: &'static str = "my-docker-app:latest";

/// Where the application binary lies inside the Docker image by default.
pub const DEFAULT_DOCKER_APP_PATH: &'static str = "/usr/local/cargo/bin/my-app";

/// The plain Wasm artifact that is measured when none is given.
pub const DEFAULT_WASM_ARTIFACT: &'static str = "target/wasm32-wasip1/release/my-app.wasm";

/// The AOT-compiled Wasm artifact that is measured when none is given.
pub const DEFAULT_WASM_AOT_ARTIFACT: &'static str = "my-app-aot.wasm";

/// Where the size CSV goes when no path is given.
pub const DEFAULT_OUTPUT_PATH: &'static str = "target/bench-results/space-size.csv";

/// How long the memory probe holds its allocation by default.
pub const DEFAULT_RUNTIME_HOLD_MS: u64 = 1200;

/// How often the memory probe is sampled by default.
pub const DEFAULT_RUNTIME_POLL_MS: u64 = 100;

/// The help text of the size benchmark driver.
pub const SIZE_USAGE: &'static str = "\
Usage:
  cargo run --bin bench_size --release -- [options]

Options:
  --docker-image <tag>      Docker image tag to inspect (default: my-docker-app:latest)
  --docker-app-path <path>  Application binary path inside the Docker image (default: /usr/local/cargo/bin/my-app)
  --wasm-artifact <path>    Plain Wasm artifact path (default: target/wasm32-wasip1/release/my-app.wasm)
  --wasm-aot-artifact <path> AOT WasmEdge artifact path (default: my-app-aot.wasm)
  --output <path>           Output CSV path (default: target/bench-results/space-size.csv)
  --runtime-bytes <usize>   Allocation size used by the runtime RSS probe (default: 67108864)
  --hold-ms <u64>           Time to hold the allocation before exit (default: 1200)
  --poll-ms <u64>           Poll interval for RSS sampling (default: 100)";

/// The settings of a size benchmark run; paths are held as text.
#[derive(Clone, Debug, PartialEq, Eq)]
pub struct BenchConfig {
    pub docker_image: String,
    pub docker_app_path: String,
    pub wasm_artifact: String,
    pub wasm_aot_artifact: String,
    pub output_path: String,
    pub runtime_bytes: usize,
    pub runtime_hold_ms: u64,
    pub runtime_poll_ms: u64,
}

/// The settings of a size benchmark run as plain values.
pub struct SizeSettings {
    pub docker_image: Seq<char>,
    pub docker_app_path: Seq<char>,
    pub wasm_artifact: Seq<char>,
    pub wasm_aot_artifact: Seq<char>,
    pub output_path: Seq<char>,
    pub runtime_bytes: usize,
    pub runtime_hold_ms: u64,
    pub runtime_poll_ms: u64,
}

impl View for BenchConfig {
    type V = SizeSettings;

    open spec fn view(&self) -> SizeSettings {
        SizeSettings {
            docker_image: self.docker_image@,
            docker_app_path: self.docker_app_path@,
            wasm_artifact: self.wasm_artifact@,
            wasm_aot_artifact: self.wasm_aot_artifact@,
            output_path: self.output_path@,
            runtime_bytes: self.runtime_bytes,
            runtime_hold_ms: self.runtime_hold_ms,
            runtime_poll_ms: self.runtime_poll_ms,
        }
    }
}

/// The settings when no option is given.
pub open spec fn default_size_settings() -> SizeSettings {
    SizeSettings {
        docker_image: DEFAULT_DOCKER_IMAGE@,
        docker_app_path: DEFAULT_DOCKER_APP_PATH@,
        wasm_artifact: DEFAULT_WASM_ARTIFACT@,
        wasm_aot_artifact: DEFAULT_WASM_AOT_ARTIFACT@,
        output_path: DEFAULT_OUTPUT_PATH@,
        runtime_bytes: DEFAULT_ALLOC_BYTES,
        runtime_hold_ms: DEFAULT_RUNTIME_HOLD_MS,
        runtime_poll_ms: DEFAULT_RUNTIME_POLL_MS,
    }
}

/// The message for an option value that is not a number.
pub open spec fn invalid_arg_message(flag: Seq<char>, value: Seq<char>) -> Seq<char> {
    "invalid value for "@ + flag + ": "@ + value
}

/// Reads the options from index `i` on into `s`; the error is the message
/// for the first option that cannot be read.
pub open spec fn scan_size_args(args: Seq<Seq<char>>, i: int, s: SizeSettings) -> Result<
    SizeSettings,
    Seq<char>,
>
    decreases args.len() - i,
{
    if i < 0 || i >= args.len() {
        Ok(s)
    } else {
        let a = args[i];
        let has_value = i + 1 < args.len();
        let v = args[i + 1];
        if a == "--docker-image"@ {
            if !has_value {
                Err("missing value for --docker-image"@)
            } else {
                scan_size_args(args, i + 2, SizeSettings { docker_image: v, ..s })
            }
        } else if a == "--docker-app-path"@ {
            if !has_value {
                Err("missing value for --docker-app-path"@)
            } else {
                scan_size_args(args, i + 2, SizeSettings { docker_app_path: v, ..s })
            }
        } else if a == "--wasm-artifact"@ {
            if !has_value {
                Err("missing value for --wasm-artifact"@)
            } else {
                scan_size_args(args, i + 2, SizeSettings { wasm_artifact: v, ..s })
            }
        } else if a == "--wasm-aot-artifact"@ {
            if !has_value {
                Err("missing value for --wasm-aot-artifact"@)
            } else {
                scan_size_args(args, i + 2, SizeSettings { wasm_aot_artifact: v, ..s })
            }
        } else if a == "--output"@ {
            if !has_value {
                Err("missing value for --output"@)
            } else {
                scan_size_args(args, i + 2, SizeSettings { output_path: v, ..s })
            }
        } else if a == "--runtime-bytes"@ {
            if !has_value {
                Err("missing value for --runtime-bytes"@)
            } else {
                match parse_unsigned_spec(v, usize::MAX as nat) {
                    None => Err(invalid_arg_message("--runtime-bytes"@, v)),
                    Some(n) => scan_size_args(
                        args,
                        i + 2,
                        SizeSettings { runtime_bytes: n as usize, ..s },
                    ),
                }
            }
        } else if a == "--hold-ms"@ {
            if !has_value {
                Err("missing value for --hold-ms"@)
            } else {
                match parse_unsigned_spec(v, u64::MAX as nat) {
                    None => Err(invalid_arg_message("--hold-ms"@, v)),
                    Some(n) => scan_size_args(
                        args,
                        i + 2,
                        SizeSettings { runtime_hold_ms: n as u64, ..s },
                    ),
                }
            }
        } else if a == "--poll-ms"@ {
            if !has_value {
                Err("missing value for --poll-ms"@)
            } else {
                match parse_unsigned_spec(v, u64::MAX as nat) {
                    None => Err(invalid_arg_message("--poll-ms"@, v)),
                    Some(n) => if n == 0 {
                        Err("--poll-ms must be at least 1"@)
                    } else {
                        scan_size_args(args, i + 2, SizeSettings { runtime_poll_ms: n as u64, ..s })
                    },
                }
            }
        } else {
            Err("unknown argument: "@ + a + "\n\n"@ + SIZE_USAGE@)
        }
    }
}

/// The settings that a command line selects; a help request is answered
/// with the error `--help`.
pub open spec fn parse_size_args_spec(args: Seq<Seq<char>>) -> Result<SizeSettings, Seq<char>> {
    if help_requested(args) {
        Err("--help"@)
    } else {
        scan_size_args(args, 0, default_size_settings())
    }
}

/// The help text of the size benchmark driver.
pub fn size_usage() -> (r: &'static str)
    ensures
        r@ == SIZE_USAGE@,
{
    SIZE_USAGE
}

/// The message for an option value that is not a number.
fn invalid_arg(flag: &str, value: &str) -> (r: String)
    ensures
        r@ == invalid_arg_message(flag@, value@),
{
    let mut r = String::new();
    r.append("invalid value for ");
    r.append(flag);
    r.append(": ");
    r.append(value);
    r
}

/// Reads the value of `flag` as a `usize`.
pub fn parse_usize_arg(value: &str, flag: &str) -> (r: Result<usize, String>)
    ensures
        match parse_unsigned_spec(value@, usize::MAX as nat) {
            Some(n) => r == Ok::<usize, String>(n as usize),
            None => r matches Err(m) && m@ == invalid_arg_message(flag@, value@),
        },
{
    match parse_unsigned(value, usize::MAX as u64) {
        Some(n) => Ok(n as usize),
        None => Err(invalid_arg(flag, value)),
    }
}

/// Reads the value of `flag` as a `u64`.
pub fn parse_u64_arg(value: &str, flag: &str) -> (r: Result<u64, String>)
    ensures
        match parse_unsigned_spec(value@, u64::MAX as nat) {
            Some(n) => r == Ok::<u64, String>(n as u64),
            None => r matches Err(m) && m@ == invalid_arg_message(flag@, value@),
        },
{
    match parse_unsigned(value, u64::MAX) {
        Some(n) => Ok(n),
        None => Err(invalid_arg(flag, value)),
    }
}

/// Parses the command line of the size benchmark driver (without the
/// program name). A help request gives the error `--help`.
pub fn parse_size_args(args: Vec<String>) -> (r: Result<BenchConfig, String>)
    ensures
        match parse_size_args_spec(arg_views(args@)) {
            Ok(s) => r matches Ok(c) && c@ == s,
            Err(m) => r matches Err(e) && e@ == m,
        },
{
    let ghost av = arg_views(args@);
    if crate::workload::any_help(&args) {
        return Err(owned("--help"));
    }
    let mut config = BenchConfig {
        docker_image: owned(DEFAULT_DOCKER_IMAGE),
        docker_app_path: owned(DEFAULT_DOCKER_APP_PATH),
        wasm_artifact: owned(DEFAULT_WASM_ARTIFACT),
        wasm_aot_artifact: owned(DEFAULT_WASM_AOT_ARTIFACT),
        output_path: owned(DEFAULT_OUTPUT_PATH),
        runtime_bytes: DEFAULT_ALLOC_BYTES,
        runtime_hold_ms: DEFAULT_RUNTIME_HOLD_MS,
        runtime_poll_ms: DEFAULT_RUNTIME_POLL_MS,
    };
    let mut index: usize = 0;
    while index < args.len()
        invariant
            av == arg_views(args@),
            !help_requested(av),
            index <= args@.len(),
            scan_size_args(av, 0, default_size_settings()) == scan_size_args(
                av,
                index as int,
                config@,
            ),
        decreases args@.len() - index,
    {
        let arg = args[index].as_str();
        assert(av[index as int] == arg@);
        let has_value = index + 1 < args.len();
        if has_value {
            assert(av[index + 1] == args@[index + 1]@);
        }
        if str_eq(arg, "--docker-image") {
            if !has_value {
                return Err(owned("missing value for --docker-image"));
            }
            config.docker_image = args[index + 1].clone();
        } else if str_eq(arg, "--docker-app-path") {
            if !has_value {
                return Err(owned("missing value for --docker-app-path"));
            }
            config.docker_app_path = args[index + 1].clone();
        } else if str_eq(arg, "--wasm-artifact") {
            if !has_value {
                return Err(owned("missing value for --wasm-artifact"));
            }
            config.wasm_artifact = args[index + 1].clone();
        } else if str_eq(arg, "--wasm-aot-artifact") {
            if !has_value {
                return Err(owned("missing value for --wasm-aot-artifact"));
            }
            config.wasm_aot_artifact = args[index + 1].clone();
        } else if str_eq(arg, "--output") {
            if !has_value {
                return Err(owned("missing value for --output"));
            }
            config.output_path = args[index + 1].clone();
        } else if str_eq(arg, "--runtime-bytes") {
            if !has_value {
                return Err(owned("missing value for --runtime-bytes"));
            }
            config.runtime_bytes = parse_usize_arg(args[index + 1].as_str(), "--runtime-bytes")?;
        } else if str_eq(arg, "--hold-ms") {
            if !has_value {
                return Err(owned("missing value for --hold-ms"));
            }
            config.runtime_hold_ms = parse_u64_arg(args[index + 1].as_str(), "--hold-ms")?;
        } else if str_eq(arg, "--poll-ms") {
            if !has_value {
                return Err(owned("missing value for --poll-ms"));
            }
            let poll = parse_u64_arg(args[index + 1].as_str(), "--poll-ms")?;
            if poll == 0 {
                return Err(owned("--poll-ms must be at least 1"));
            }
            config.runtime_poll_ms = poll;
        } else {
            let mut s = String::new();
            s.append("unknown argument: ");
            s.append(arg);
            s.append("\n\n");
            s.append(size_usage());
            return Err(s);
        }
        index = index + 2;
    }
    Ok(config)
}

/// What is measured for a runtime.
#[derive(Clone, Copy, Debug, PartialEq, Eq, Structural)]
pub enum Metric {
    ArtifactOnly,
    FullDeploySize,
    RuntimePeakRss,
}

impl Metric {
    /// The name of the metric in reports.
    pub open spec fn name_spec(self) -> Seq<char> {
        match self {
            Metric::ArtifactOnly => "artifact_only"@,
            Metric::FullDeploySize => "full_deploy_size"@,
            Metric::RuntimePeakRss => "runtime_peak_rss"@,
        }
    }

    /// The name of the metric in reports.
    pub fn name(self) -> (r: &'static str)
        ensures
            r@ == self.name_spec(),
    {
        match self {
            Metric::ArtifactOnly => "artifact_only",
            Metric::FullDeploySize => "full_deploy_size",
            Metric::RuntimePeakRss => "runtime_peak_rss",
        }
    }
}

/// The workload that the memory probe runs: `alloc_touch` with the
/// configured size and hold time.
pub fn runtime_probe_workload(config: &BenchConfig) -> (r: Workload)
    ensures
        r == (Workload::AllocTouch { bytes: config.runtime_bytes, hold_ms: config.runtime_hold_ms }),
{
    Workload::AllocTouch { bytes: config.runtime_bytes, hold_ms: config.runtime_hold_ms }
}

/// The arguments that run a workload from a Wasm artifact: the artifact's
/// path, then the workload's own arguments.
pub fn command_args_from_path(path: &str, workload: &Workload) -> (r: Vec<String>)
    ensures
        arg_views(r@) == seq![path@] + workload.cli_args_spec(),
{
    let mut args: Vec<String> = Vec::new();
    args.push(owned(path));
    let rest = workload.cli_args();
    let ghost head = arg_views(args@);
    let mut i: usize = 0;
    while i < rest.len()
        invariant
            i <= rest@.len(),
            head == seq![path@],
            arg_views(args@) == head + arg_views(rest@).take(i as int),
        decreases rest@.len() - i,
    {
        let c = rest[i].clone();
        assert(c@ == arg_views(rest@)[i as int]);
        let ghost old_args = args@;
        args.push(c);
        assert(arg_views(args@) =~= arg_views(old_args).push(c@));
        assert(arg_views(rest@).take(i + 1) =~= arg_views(rest@).take(i as int).push(c@));
        i = i + 1;
    }
    assert(arg_views(rest@).take(i as int) =~= arg_views(rest@));
    args
}

/// Refuses a file that does not exist (`is_file` tells whether it does).
pub fn ensure_file_exists(is_file: bool, path: &str, label: &str) -> (r: Result<(), String>)
    ensures
        is_file ==> r is Ok,
        !is_file ==> (r matches Err(m) && m@ == "missing "@ + label@ + ": "@ + path@),
{
    if is_file {
        Ok(())
    } else {
        let mut m = String::new();
        m.append("missing ");
        m.append(label);
        m.append(": ");
        m.append(path);
        Err(m)
    }
}

/// The literals of shell quoting, as characters.
proof fn lemma_quote_literals()
    ensures
        "'"@ == seq!['\''],
        "'\"'\"'"@ == seq!['\'', '"', '\'', '"', '\''],
{
    reveal_strlit("'");
    reveal_strlit("'\"'\"'");
    assert("'"@ =~= seq!['\'']);
    assert("'\"'\"'"@ =~= seq!['\'', '"', '\'', '"', '\'']);
}

/// A text made safe inside single quotes of a shell: each `'` becomes
/// `'"'"'` (close, quoted quote, reopen).
pub fn shell_single_quote(value: &str) -> (r: String)
    ensures
        r@ == replace(value@, "'"@, "'\"'\"'"@),
{
    proof {
        lemma_quote_literals();
    }
    replace_str(value, "'", "'\"'\"'")
}

/// The shell script that prints the size of a file: `wc -c <'<path>'`.
pub fn docker_size_script(path: &str) -> (r: String)
    ensures
        r@ == "wc -c <'"@ + replace(path@, "'"@, "'\"'\"'"@) + "'"@,
{
    let mut s = String::new();
    s.append("wc -c <'");
    let q = shell_single_quote(path);
    s.append(q.as_str());
    s.append("'");
    s
}

/// The arguments of `docker` that print the size of the application binary
/// inside an image.
pub fn docker_binary_size_args(image: &str, path: &str) -> (r: Vec<String>)
    ensures
        arg_views(r@) == seq![
            "run"@,
            "--rm"@,
            "--entrypoint"@,
            "/bin/sh"@,
            image@,
            "-lc"@,
            "wc -c <'"@ + replace(path@, "'"@, "'\"'\"'"@) + "'"@,
        ],
{
    let mut r: Vec<String> = Vec::new();
    r.push(owned("run"));
    r.push(owned("--rm"));
    r.push(owned("--entrypoint"));
    r.push(owned("/bin/sh"));
    r.push(owned(image));
    r.push(owned("-lc"));
    r.push(docker_size_script(path));
    assert(arg_views(r@) =~= seq![
        "run"@,
        "--rm"@,
        "--entrypoint"@,
        "/bin/sh"@,
        image@,
        "-lc"@,
        "wc -c <'"@ + replace(path@, "'"@, "'\"'\"'"@) + "'"@,
    ]);
    r
}

/// The number that a command printed, read as a `u64`.
pub open spec fn stdout_u64_spec(stdout: Seq<char>, label: Seq<char>) -> Result<u64, Seq<char>> {
    let t = trim(stdout);
    if t.len() == 0 {
        Err(label + " returned an empty value"@)
    } else {
        match parse_unsigned_spec(t, u64::MAX as nat) {
            Some(n) => Ok(n as u64),
            None => Err(label + " returned invalid value: "@ + t),
        }
    }
}

/// The number that a command printed, read as an `i32`.
pub open spec fn stdout_i32_spec(stdout: Seq<char>, label: Seq<char>) -> Result<i32, Seq<char>> {
    let t = trim(stdout);
    if t.len() == 0 {
        Err(label + " returned an empty value"@)
    } else {
        match parse_i32_spec(t) {
            Some(n) => Ok(n as i32),
            None => Err(label + " returned invalid value: "@ + t),
        }
    }
}

/// The message that a command printed nothing.
fn empty_value(label: &str) -> (r: String)
    ensures
        r@ == label@ + " returned an empty value"@,
{
    let mut m = String::new();
    m.append(label);
    m.append(" returned an empty value");
    m
}

/// The message that a command printed something else than a number.
fn invalid_value(label: &str, t: &str) -> (r: String)
    ensures
        r@ == label@ + " returned invalid value: "@ + t@,
{
    let mut m = String::new();
    m.append(label);
    m.append(" returned invalid value: ");
    m.append(t);
    m
}

/// Reads the trimmed output of a command as a `u64`.
pub fn parse_u64_from_stdout(stdout: &str, label: &str) -> (r: Result<u64, String>)
    ensures
        match stdout_u64_spec(stdout@, label@) {
            Ok(n) => r == Ok::<u64, String>(n),
            Err(m) => r matches Err(e) && e@ == m,
        },
{
    let t = trim_str(stdout);
    if t.as_str().unicode_len() == 0 {
        return Err(empty_value(label));
    }
    match parse_unsigned(t.as_str(), u64::MAX) {
        Some(n) => Ok(n),
        None => Err(invalid_value(label, t.as_str())),
    }
}

/// Reads the trimmed output of a command as an `i32`.
pub fn parse_i32_from_stdout(stdout: &str, label: &str) -> (r: Result<i32, String>)
    ensures
        match stdout_i32_spec(stdout@, label@) {
            Ok(n) => r == Ok::<i32, String>(n),
            Err(m) => r matches Err(e) && e@ == m,
        },
{
    let t = trim_str(stdout);
    if t.as_str().unicode_len() == 0 {
        return Err(empty_value(label));
    }
    match parse_i32(t.as_str()) {
        Some(n) => Ok(n),
        None => Err(invalid_value(label, t.as_str())),
    }
}

/// A size such as `1.5MiB`, split into its number (as text that `f64`
/// accepts) and the factor of its unit.
pub struct HumanSize {
    pub number: String,
    pub multiplier: u64,
}

/// The factor of a size unit: none or `B`; `KB`, `KiB`, `kB`; `MB`, `MiB`;
/// `GB`, `GiB`; `TB`, `TiB` (all binary).
pub open spec fn unit_multiplier(unit: Seq<char>) -> Option<u64> {
    if unit == ""@ || unit == "B"@ {
        Some(1)
    } else if unit == "KB"@ || unit == "KiB"@ || unit == "kB"@ {
        Some(1024)
    } else if unit == "MB"@ || unit == "MiB"@ {
        Some(1048576)
    } else if unit == "GB"@ || unit == "GiB"@ {
        Some(1073741824)
    } else if unit == "TB"@ || unit == "TiB"@ {
        Some(1099511627776)
    } else {
        None
    }
}

/// Where the number of a size ends: at the first character that is neither
/// an ASCII digit nor `.`, or at the end.
pub open spec fn number_end(s: Seq<char>) -> int
    decreases s.len(),
{
    if s.len() == 0 {
        0
    } else if crate::decimal::is_digit(s[0]) || s[0] == '.' {
        1 + number_end(s.drop_first())
    } else {
        0
    }
}

/// The number and unit factor of a size text, or the message that refuses it.
pub open spec fn human_size_spec(input: Seq<char>) -> Result<(Seq<char>, u64), Seq<char>> {
    let t = trim(input);
    if t.len() == 0 {
        Err("size string was empty"@)
    } else {
        let k = number_end(t);
        let number = t.take(k);
        if !is_float_literal(number) {
            Err("invalid size value: "@ + t)
        } else {
            let unit = trim(t.skip(k));
            match unit_multiplier(unit) {
                Some(m) => Ok((number, m)),
                None => Err("unsupported size unit: "@ + unit),
            }
        }
    }
}

/// `number_end` lies inside the text.
proof fn lemma_number_end(s: Seq<char>)
    ensures
        0 <= number_end(s) <= s.len(),
    decreases s.len(),
{
    if s.len() > 0 && (crate::decimal::is_digit(s[0]) || s[0] == '.') {
        lemma_number_end(s.drop_first());
    }
}

/// The factor of a size unit.
fn multiplier_of(unit: &str) -> (r: Option<u64>)
    ensures
        r == unit_multiplier(unit@),
{
    if str_eq(unit, "") || str_eq(unit, "B") {
        Some(1)
    } else if str_eq(unit, "KB") || str_eq(unit, "KiB") || str_eq(unit, "kB") {
        Some(1024)
    } else if str_eq(unit, "MB") || str_eq(unit, "MiB") {
        Some(1048576)
    } else if str_eq(unit, "GB") || str_eq(unit, "GiB") {
        Some(1073741824)
    } else if str_eq(unit, "TB") || str_eq(unit, "TiB") {
        Some(1099511627776)
    } else {
        None
    }
}

/// Splits a size such as `2 GiB` into its number and unit factor; the
/// bytes are the number times the factor, rounded.
pub fn parse_human_size(input: &str) -> (r: Result<HumanSize, String>)
    ensures
        match human_size_spec(input@) {
            Ok((number, m)) => r matches Ok(h) && h.number@ == number && h.multiplier == m,
            Err(e) => r matches Err(s) && s@ == e,
        },
{
    let t = trim_str(input);
    let v = chars_of(t.as_str());
    if v.len() == 0 {
        return Err(owned("size string was empty"));
    }
    let mut k: usize = 0;
    assert(v@.skip(0) =~= v@);
    while k < v.len() && (('0' <= v[k] && v[k] <= '9') || v[k] == '.')
        invariant
            k <= v@.len(),
            number_end(v@) == k + number_end(v@.skip(k as int)),
        decreases v@.len() - k,
    {
        assert(v@.skip(k as int).drop_first() =~= v@.skip(k + 1));
        k = k + 1;
    }
    assert(v@.skip(k as int).len() == 0 || !(crate::decimal::is_digit(v@.skip(k as int)[0]) || v@.skip(k as int)[0] == '.'));
    let number = string_of(&v, 0, k);
    assert(v@.subrange(0, k as int) =~= v@.take(k as int));
    if !is_float_text(number.as_str()) {
        let mut m = String::new();
        m.append("invalid size value: ");
        m.append(t.as_str());
        return Err(m);
    }
    let (a, b) = trim_bounds(&v, k, v.len());
    assert(v@.subrange(k as int, v@.len() as int) =~= v@.skip(k as int));
    let unit = string_of(&v, a, b);
    match multiplier_of(unit.as_str()) {
        Some(m) => Ok(HumanSize { number, multiplier: m }),
        None => {
            let mut e = String::new();
            e.append("unsupported size unit: ");
            e.append(unit.as_str());
            Err(e)
        },
    }
}

/// Kibibytes as bytes, saturating at `u64::MAX`.
pub fn kib_to_bytes(kib: u64) -> (r: u64)
    ensures
        r == (if kib * 1024 > u64::MAX {
            u64::MAX as int
        } else {
            kib * 1024
        }),
{
    match kib.checked_mul(1024) {
        Some(b) => b,
        None => u64::MAX,
    }
}

/// The characters that make a CSV field need quoting.
pub open spec fn csv_special(c: char) -> bool {
    c == ',' || c == '"' || c == '\n'
}

/// A CSV field: quoted, with its quotes doubled, when it holds a comma, a
/// quote or a newline; as it is otherwise.
pub open spec fn csv_escape_spec(value: Seq<char>) -> Seq<char> {
    if exists|i: int| 0 <= i < value.len() && csv_special(#[trigger] value[i]) {
        "\""@ + replace(value, "\""@, "\"\""@) + "\""@
    } else {
        value
    }
}

/// The text between the quotes of a quoted CSV field with each doubled
/// quote read as one quote.
pub open spec fn csv_undouble(s: Seq<char>) -> Seq<char>
    decreases s.len(),
{
    if s.len() == 0 {
        s
    } else if s.len() >= 2 && s[0] == '"' && s[1] == '"' {
        seq!['"'] + csv_undouble(s.skip(2))
    } else {
        seq![s[0]] + csv_undouble(s.drop_first())
    }
}

/// The value that a CSV field stands for: the undoubled inside of a quoted
/// field, or the field itself.
pub open spec fn csv_field_value(f: Seq<char>) -> Seq<char> {
    if f.len() >= 2 && f[0] == '"' && f.last() == '"' {
        csv_undouble(f.subrange(1, f.len() - 1))
    } else {
        f
    }
}

/// Undoubling the quotes of a text whose quotes were doubled gives it back.
proof fn lemma_csv_undouble(v: Seq<char>)
    ensures
        csv_undouble(replace_scan(v, seq!['"'], seq!['"', '"'])) == v,
    decreases v.len(),
{
    let q = seq!['"'];
    let qq = seq!['"', '"'];
    if v.len() > 0 {
        lemma_csv_undouble(v.drop_first());
        assert(v.skip(1) =~= v.drop_first());
        let d = replace_scan(v, q, qq);
        let rest = replace_scan(v.drop_first(), q, qq);
        if v[0] == '"' {
            assert(v.take(1) =~= q);
            assert(d == qq + rest);
            assert(d.skip(2) =~= rest);
            assert(seq!['"'] + v.drop_first() =~= v);
        } else {
            assert(v.take(1) != q) by {
                assert(v.take(1)[0] != q[0]);
            }
            assert(d == seq![v[0]] + rest);
            assert(d.drop_first() =~= rest);
            assert(seq![v[0]] + v.drop_first() =~= v);
        }
    } else {
        assert(replace_scan(v, q, qq) == v);
    }
}

/// Law: a CSV field reads back as its value. A value that holds a comma, a
/// quote or a newline comes out quoted, and only such a value; with the
/// quotes removed and the quotes inside undoubled it is the value again.
pub proof fn lemma_csv_escape_reads_back(value: Seq<char>)
    ensures
        csv_field_value(csv_escape_spec(value)) == value,
        (exists|i: int| 0 <= i < value.len() && csv_special(#[trigger] value[i])) ==> ({
            let f = csv_escape_spec(value);
            f.len() >= 2 && f[0] == '"' && f.last() == '"'
        }),
{
    reveal_strlit("\"");
    reveal_strlit("\"\"");
    assert("\""@ =~= seq!['"']);
    assert("\"\""@ =~= seq!['"', '"']);
    let f = csv_escape_spec(value);
    if exists|i: int| 0 <= i < value.len() && csv_special(#[trigger] value[i]) {
        lemma_replace_is_scan(value, seq!['"'], seq!['"', '"']);
        lemma_csv_undouble(value);
        let inner = replace(value, "\""@, "\"\""@);
        assert(f == seq!['"'] + inner + seq!['"']);
        assert(f.subrange(1, f.len() - 1) =~= inner);
    } else {
        if f.len() >= 2 && f[0] == '"' && f.last() == '"' {
            assert(csv_special(value[0]));
        }
    }
}

/// A CSV field for `value`.
pub fn csv_escape(value: &str) -> (r: String)
    ensures
        r@ == csv_escape_spec(value@),
{
    let special = vec![',', '"', '\n'];
    let needs = contains_any(value, &special);
    assert(forall|c: char| special@.contains(c) <==> csv_special(c)) by {
        assert forall|c: char| special@.contains(c) implies csv_special(c) by {
            let i = choose|i: int| 0 <= i < special@.len() && special@[i] == c;
        }
        assert forall|c: char| csv_special(c) implies special@.contains(c) by {
            if c == ',' {
                assert(special@[0] == c);
            } else if c == '"' {
                assert(special@[1] == c);
            } else {
                assert(special@[2] == c);
            }
        }
    }
    if needs {
        proof {
            reveal_strlit("\"");
        }
        let mut s = String::new();
        s.append("\"");
        let body = replace_str(value, "\"", "\"\"");
        s.append(body.as_str());
        s.append("\"");
        s
    } else {
        owned(value)
    }
}

/// What the poller does for a container state: keep sampling (`Ok(true)`)
/// while the container is created, running or restarting; stop
/// (`Ok(false)`) once it exited or died; fail on any other state.
pub open spec fn poll_step_spec(container_id: Seq<char>, state: Seq<char>) -> Result<bool, Seq<char>> {
    if state == "created"@ || state == "running"@ || state == "restarting"@ {
        Ok(true)
    } else if state == "exited"@ || state == "dead"@ {
        Ok(false)
    } else {
        Err("unexpected Docker state for "@ + container_id + ": "@ + state)
    }
}

/// What the poller does for a container state.
pub fn docker_poll_step(container_id: &str, state: &str) -> (r: Result<bool, String>)
    ensures
        match poll_step_spec(container_id@, state@) {
            Ok(b) => r == Ok::<bool, String>(b),
            Err(m) => r matches Err(e) && e@ == m,
        },
{
    if str_eq(state, "created") || str_eq(state, "running") || str_eq(state, "restarting") {
        Ok(true)
    } else if str_eq(state, "exited") || str_eq(state, "dead") {
        Ok(false)
    } else {
        let mut m = String::new();
        m.append("unexpected Docker state for ");
        m.append(container_id);
        m.append(": ");
        m.append(state);
        Err(m)
    }
}

/// The usage part of `docker stats` memory output (`<usage> / <limit>`):
/// none when the output is blank, else the trimmed text before the first `/`.
pub open spec fn memory_usage_part_spec(stdout: Seq<char>) -> Option<Seq<char>> {
    let t = trim(stdout);
    if t.len() == 0 {
        None
    } else {
        Some(trim(t.take(first_pos(t, '/'))))
    }
}

/// The usage part of `docker stats` memory output.
pub fn memory_usage_part(stdout: &str) -> (r: Option<String>)
    ensures
        match memory_usage_part_spec(stdout@) {
            Some(u) => r matches Some(s) && s@ == u,
            None => r is None,
        },
{
    let t = trim_str(stdout);
    let v = chars_of(t.as_str());
    if v.len() == 0 {
        return None;
    }
    let slash = position_of(&v, 0, v.len(), '/');
    assert(v@.subrange(0, v@.len() as int) =~= v@);
    proof {
        crate::decimal::lemma_first_pos(v@, '/');
    }
    assert(v@.subrange(0, slash as int) =~= v@.take(slash as int));
    let (a, b) = trim_bounds(&v, 0, slash);
    Some(string_of(&v, a, b))
}

/// The identity of a started container: the trimmed output of `docker run -d`.
pub fn container_id_from_stdout(stdout: &str, image: &str) -> (r: Result<String, String>)
    ensures
        trim(stdout@).len() > 0 ==> (r matches Ok(id) && id@ == trim(stdout@)),
        trim(stdout@).len() == 0 ==> (r matches Err(m) && m@ == "docker run -d "@ + image@
            + " returned an empty container id"@),
{
    let id = trim_str(stdout);
    if id.as_str().unicode_len() == 0 {
        let mut m = String::new();
        m.append("docker run -d ");
        m.append(image);
        m.append(" returned an empty container id");
        Err(m)
    } else {
        Ok(id)
    }
}

/// The resident set size, in KiB, that `ps -o rss=` printed: none when the
/// output is blank.
pub fn rss_from_ps_output(stdout: &str, pid: u32) -> (r: Result<Option<u64>, String>)
    ensures
        ({
            let t = trim(stdout@);
            if t.len() == 0 {
                r == Ok::<Option<u64>, String>(None)
            } else {
                match parse_unsigned_spec(t, u64::MAX as nat) {
                    Some(n) => r == Ok::<Option<u64>, String>(Some(n as u64)),
                    None => r matches Err(m) && m@ == "unexpected `ps` rss output for pid "@
                        + dec_str(pid as nat) + ": "@ + t,
                }
            }
        }),
{
    let t = trim_str(stdout);
    if t.as_str().unicode_len() == 0 {
        return Ok(None);
    }
    match parse_unsigned(t.as_str(), u64::MAX) {
        Some(n) => Ok(Some(n)),
        None => {
            let mut m = String::new();
            m.append("unexpected `ps` rss output for pid ");
            let p = u64_to_string(pid as u64);
            m.append(p.as_str());
            m.append(": ");
            m.append(t.as_str());
            Err(m)
        },
    }
}

/// The message for a command that ran and failed: what was run, the exit
/// code, and the trimmed standard error.
pub fn exit_failure_message(what: &str, code: i32, stderr: &str) -> (r: String)
    ensures
        r@ == what@ + " failed with exit code "@ + int_str(code as int) + ": "@ + trim(stderr@),
{
    let mut m = String::new();
    m.append(what);
    m.append(" failed with exit code ");
    let c = crate::decimal::i32_to_string(code);
    m.append(c.as_str());
    m.append(": ");
    let e = trim_str(stderr);
    m.append(e.as_str());
    m
}

} // verus!

verus! {

/// Whether an option and its value, given alone, are read without error.
pub open spec fn size_option_accepted(flag: Seq<char>, value: Seq<char>) -> bool {
    scan_size_args(seq![flag, value], 0, default_size_settings()) is Ok
}

/// Reading an option with its value depends on the settings read before
/// only through what it sets, and fails the same way whatever they were.
proof fn lemma_size_step(args: Seq<Seq<char>>, i: int, s: SizeSettings, h: SizeSettings)
    requires
        0 <= i,
        i + 1 < args.len(),
    ensures
        scan_size_args(args, i, s) == match scan_size_args(seq![args[i], args[i + 1]], 0, s) {
            Ok(g) => scan_size_args(args, i + 2, g),
            Err(e) => Err(e),
        },
        (scan_size_args(seq![args[i], args[i + 1]], 0, s) is Ok) == (scan_size_args(
            seq![args[i], args[i + 1]],
            0,
            h,
        ) is Ok),
        scan_size_args(seq![args[i], args[i + 1]], 0, s) is Err ==> scan_size_args(
            seq![args[i], args[i + 1]],
            0,
            s,
        ) == scan_size_args(seq![args[i], args[i + 1]], 0, h),
{
    reveal_with_fuel(scan_size_args, 2);
    let pair = seq![args[i], args[i + 1]];
    assert(pair[0] == args[i] && pair[1] == args[i + 1]);
}

/// Reading a command line that starts with a prefix read without error goes
/// on, after the prefix, from the settings of the prefix.
proof fn lemma_size_scan_prefix(pre: Seq<Seq<char>>, x: Seq<Seq<char>>, i: int, s: SizeSettings)
    requires
        0 <= i <= pre.len(),
        scan_size_args(pre, i, s) is Ok,
    ensures
        scan_size_args(pre + x, i, s) == scan_size_args(
            pre + x,
            pre.len() as int,
            scan_size_args(pre, i, s)->Ok_0,
        ),
    decreases pre.len() - i,
{
    let a = pre + x;
    if i < pre.len() {
        if i + 1 >= pre.len() {
            assert(scan_size_args(pre, i, s) is Err);
        }
        assert(a[i] == pre[i] && a[i + 1] == pre[i + 1]);
        lemma_size_step(pre, i, s, s);
        lemma_size_step(a, i, s, s);
        let g = scan_size_args(seq![pre[i], pre[i + 1]], 0, s)->Ok_0;
        lemma_size_scan_prefix(pre, x, i + 2, g);
    }
}

/// Reading from index `j` on depends only on the arguments from `j` on.
proof fn lemma_size_scan_suffix(a: Seq<Seq<char>>, b: Seq<Seq<char>>, j: int, s: SizeSettings)
    requires
        0 <= j,
        a.len() == b.len(),
        forall|k: int| j <= k < a.len() ==> a[k] == b[k],
    ensures
        scan_size_args(a, j, s) == scan_size_args(b, j, s),
    decreases a.len() - j,
{
    if j + 1 < a.len() {
        lemma_size_step(a, j, s, s);
        lemma_size_step(b, j, s, s);
        assert(seq![a[j], a[j + 1]] == seq![b[j], b[j + 1]]);
        match scan_size_args(seq![a[j], a[j + 1]], 0, s) {
            Ok(g) => lemma_size_scan_suffix(a, b, j + 2, g),
            Err(_) => {},
        }
    } else if j < a.len() {
        assert(a[j] == b[j]);
    }
}

/// Reading a whole command line that a prefix read without error begins.
proof fn lemma_size_parse_append(pre: Seq<Seq<char>>, x: Seq<Seq<char>>)
    requires
        parse_size_args_spec(pre) is Ok,
        !help_requested(x),
    ensures
        parse_size_args_spec(pre + x) == scan_size_args(
            pre + x,
            pre.len() as int,
            parse_size_args_spec(pre)->Ok_0,
        ),
{
    lemma_help_concat(pre, x);
    lemma_size_scan_prefix(pre, x, 0, default_size_settings());
}

/// Law: appending an option that names a path or an image, with any value
/// that is not a help request, to a command line that is read without error
/// stores that value in its own setting and leaves every other setting as
/// the rest of the command line gives it.
pub proof fn lemma_size_option_sets_its_field(pre: Seq<Seq<char>>, flag: Seq<char>, v: Seq<char>)
    requires
        parse_size_args_spec(pre) is Ok,
        v != "--help"@,
        v != "-h"@,
    ensures
        ({
            let s = parse_size_args_spec(pre)->Ok_0;
            let t = parse_size_args_spec(pre + seq![flag, v]);
            &&& flag == "--docker-image"@ ==> t == Ok::<SizeSettings, Seq<char>>(
                SizeSettings { docker_image: v, ..s },
            )
            &&& flag == "--docker-app-path"@ ==> t == Ok::<SizeSettings, Seq<char>>(
                SizeSettings { docker_app_path: v, ..s },
            )
            &&& flag == "--wasm-artifact"@ ==> t == Ok::<SizeSettings, Seq<char>>(
                SizeSettings { wasm_artifact: v, ..s },
            )
            &&& flag == "--wasm-aot-artifact"@ ==> t == Ok::<SizeSettings, Seq<char>>(
                SizeSettings { wasm_aot_artifact: v, ..s },
            )
            &&& flag == "--output"@ ==> t == Ok::<SizeSettings, Seq<char>>(
                SizeSettings { output_path: v, ..s },
            )
        }),
{
    reveal_strlit("--help");
    reveal_strlit("-h");
    reveal_strlit("--docker-image");
    reveal_strlit("--docker-app-path");
    reveal_strlit("--wasm-artifact");
    reveal_strlit("--wasm-aot-artifact");
    reveal_strlit("--output");
    let x = seq![flag, v];
    let a = pre + x;
    let p = pre.len() as int;
    if flag == "--docker-image"@ || flag == "--docker-app-path"@ || flag == "--wasm-artifact"@
        || flag == "--wasm-aot-artifact"@ || flag == "--output"@ {
        assert("--help"@.len() == 6 && "-h"@.len() == 2);
        assert("--docker-image"@.len() == 14 && "--docker-app-path"@.len() == 17);
        assert("--wasm-artifact"@.len() == 15 && "--wasm-aot-artifact"@.len() == 19);
        assert("--output"@.len() == 8);
        assert(flag != "--help"@ && flag != "-h"@);
        assert(!help_requested(x)) by {
            if help_requested(x) {
                let i = choose|i: int| 0 <= i < x.len() && (#[trigger] x[i] == "--help"@ || x[i] == "-h"@);
                assert(i == 0 || i == 1);
            }
        }
        lemma_size_parse_append(pre, x);
        assert(a[p] == flag && a[p + 1] == v);
        reveal_with_fuel(scan_size_args, 2);
    }
}

/// Law: appending a numeric option with the decimal notation of `n` to a
/// command line that is read without error sets exactly that option's
/// setting to `n` and leaves every other setting as it was: `--runtime-bytes`
/// for any `n` that fits in `usize`, `--hold-ms` for any `n` that fits in
/// `u64`, and `--poll-ms` likewise except for `n = 0`, which is refused.
pub proof fn lemma_size_number_sets_its_field(pre: Seq<Seq<char>>, flag: Seq<char>, n: nat)
    requires
        parse_size_args_spec(pre) is Ok,
    ensures
        ({
            let s = parse_size_args_spec(pre)->Ok_0;
            let t = parse_size_args_spec(pre + seq![flag, dec_str(n)]);
            &&& flag == "--runtime-bytes"@ && n <= usize::MAX ==> t == Ok::<SizeSettings, Seq<char>>(
                SizeSettings { runtime_bytes: n as usize, ..s },
            )
            &&& flag == "--hold-ms"@ && n <= u64::MAX ==> t == Ok::<SizeSettings, Seq<char>>(
                SizeSettings { runtime_hold_ms: n as u64, ..s },
            )
            &&& flag == "--poll-ms"@ && 1 <= n <= u64::MAX ==> t == Ok::<SizeSettings, Seq<char>>(
                SizeSettings { runtime_poll_ms: n as u64, ..s },
            )
            &&& flag == "--poll-ms"@ && n == 0 ==> t == Err::<SizeSettings, Seq<char>>(
                "--poll-ms must be at least 1"@,
            )
        }),
{
    reveal_strlit("--help");
    reveal_strlit("-h");
    reveal_strlit("--docker-image");
    reveal_strlit("--docker-app-path");
    reveal_strlit("--wasm-artifact");
    reveal_strlit("--wasm-aot-artifact");
    reveal_strlit("--output");
    reveal_strlit("--runtime-bytes");
    reveal_strlit("--hold-ms");
    reveal_strlit("--poll-ms");
    let x = seq![flag, dec_str(n)];
    let a = pre + x;
    let p = pre.len() as int;
    lemma_dec_str_not_option(n);
    if flag == "--runtime-bytes"@ || flag == "--hold-ms"@ || flag == "--poll-ms"@ {
        assert("--help"@.len() == 6 && "-h"@.len() == 2);
        assert("--docker-image"@.len() == 14 && "--docker-app-path"@.len() == 17);
        assert("--wasm-artifact"@.len() == 15 && "--wasm-aot-artifact"@.len() == 19);
        assert("--output"@.len() == 8 && "--runtime-bytes"@.len() == 15);
        assert("--hold-ms"@.len() == 9 && "--poll-ms"@.len() == 9);
        assert("--runtime-bytes"@[2] == 'r' && "--wasm-artifact"@[2] == 'w');
        assert("--hold-ms"@[2] == 'h' && "--poll-ms"@[2] == 'p');
        assert(flag != "--help"@ && flag != "-h"@);
        assert(!help_requested(x)) by {
            if help_requested(x) {
                let i = choose|i: int| 0 <= i < x.len() && (#[trigger] x[i] == "--help"@ || x[i] == "-h"@);
                assert(i == 0 || i == 1);
            }
        }
        lemma_size_parse_append(pre, x);
        assert(a[p] == flag && a[p + 1] == dec_str(n));
        if n <= usize::MAX {
            lemma_dec_str_parses_back(n, usize::MAX as nat);
        }
        if n <= u64::MAX {
            lemma_dec_str_parses_back(n, u64::MAX as nat);
        }
        reveal_with_fuel(scan_size_args, 2);
    }
}

/// Law: options are read independently of their order. Exchanging two
/// neighbouring options (each with its value), after a prefix of whole
/// options that is read without error, changes nothing in what
/// `parse_size_args` answers; provided at least one of the two is
/// accepted, and, when both are, that they are different options.
pub proof fn lemma_size_args_swap(
    pre: Seq<Seq<char>>,
    f1: Seq<char>,
    v1: Seq<char>,
    f2: Seq<char>,
    v2: Seq<char>,
    post: Seq<Seq<char>>,
)
    requires
        scan_size_args(pre, 0, default_size_settings()) is Ok,
        size_option_accepted(f1, v1) || size_option_accepted(f2, v2),
        size_option_accepted(f1, v1) && size_option_accepted(f2, v2) ==> f1 != f2,
    ensures
        parse_size_args_spec(pre + seq![f1, v1, f2, v2] + post) == parse_size_args_spec(
            pre + seq![f2, v2, f1, v1] + post,
        ),
{
    let a = pre + seq![f1, v1, f2, v2] + post;
    let b = pre + seq![f2, v2, f1, v1] + post;
    let p = pre.len() as int;
    let d = default_size_settings();
    assert(a == pre + (seq![f1, v1, f2, v2] + post));
    assert(b == pre + (seq![f2, v2, f1, v1] + post));
    assert(a[p] == f1 && a[p + 1] == v1 && a[p + 2] == f2 && a[p + 3] == v2);
    assert(b[p] == f2 && b[p + 1] == v2 && b[p + 2] == f1 && b[p + 3] == v1);
    lemma_help_concat(pre + seq![f1, v1, f2, v2], post);
    lemma_help_concat(pre + seq![f2, v2, f1, v1], post);
    lemma_help_concat(pre, seq![f1, v1, f2, v2]);
    lemma_help_concat(pre, seq![f2, v2, f1, v1]);
    lemma_help_four(f1, v1, f2, v2);
    let g = scan_size_args(pre, 0, d)->Ok_0;
    lemma_size_scan_prefix(pre, seq![f1, v1, f2, v2] + post, 0, d);
    lemma_size_scan_prefix(pre, seq![f2, v2, f1, v1] + post, 0, d);
    lemma_size_step(a, p, g, d);
    lemma_size_step(b, p, g, d);
    assert(seq![a[p], a[p + 1]] == seq![f1, v1]);
    assert(seq![b[p], b[p + 1]] == seq![f2, v2]);
    assert(seq![a[p + 2], a[p + 3]] == seq![f2, v2]);
    assert(seq![b[p + 2], b[p + 3]] == seq![f1, v1]);
    if size_option_accepted(f1, v1) && size_option_accepted(f2, v2) {
        lemma_size_steps_commute(f1, v1, f2, v2, g);
        let g1 = scan_size_args(seq![f1, v1], 0, g)->Ok_0;
        let g2 = scan_size_args(seq![f2, v2], 0, g)->Ok_0;
        lemma_size_step(a, p + 2, g1, d);
        lemma_size_step(b, p + 2, g2, d);
        let g12 = scan_size_args(seq![f2, v2], 0, g1)->Ok_0;
        lemma_size_scan_suffix(a, b, p + 4, g12);
    } else if size_option_accepted(f1, v1) {
        let g1 = scan_size_args(seq![f1, v1], 0, g)->Ok_0;
        lemma_size_step(a, p + 2, g1, d);
        lemma_size_step(b, p + 2, g, g1);
        lemma_size_step(b, p + 2, g, d);
        lemma_size_step(a, p + 2, g1, g);
    } else {
        let g2 = scan_size_args(seq![f2, v2], 0, g)->Ok_0;
        lemma_size_step(b, p + 2, g2, d);
        lemma_size_step(a, p, g, g2);
        lemma_size_step(b, p + 2, g2, g);
        lemma_size_step(a, p + 2, g, d);
    }
}

/// Two options that name different settings, read one after the other,
/// give the same settings whichever comes first.
proof fn lemma_size_steps_commute(f1: Seq<char>, v1: Seq<char>, f2: Seq<char>, v2: Seq<char>, g: SizeSettings)
    requires
        size_option_accepted(f1, v1),
        size_option_accepted(f2, v2),
        f1 != f2,
    ensures
        scan_size_args(seq![f1, v1], 0, g) is Ok,
        scan_size_args(seq![f2, v2], 0, g) is Ok,
        scan_size_args(seq![f2, v2], 0, scan_size_args(seq![f1, v1], 0, g)->Ok_0)
            == scan_size_args(seq![f1, v1], 0, scan_size_args(seq![f2, v2], 0, g)->Ok_0),
{
    reveal_with_fuel(scan_size_args, 2);
    let p1 = seq![f1, v1];
    let p2 = seq![f2, v2];
    assert(p1[0] == f1 && p1[1] == v1);
    assert(p2[0] == f2 && p2[1] == v2);
}

} // verus!
