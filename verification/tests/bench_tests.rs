use my_app::bench::{command_failure_message, Runtime};
use my_app::bench_local::{
    bench_usage, last_nonblank_line, nearest_rank_index, no_stdout_message, parse_bench_args,
    sample_command, sample_failure_message, summary_groups, BenchConfig, SampleKey,
};
use my_app::bench_size::{
    command_args_from_path, container_id_from_stdout, csv_escape, docker_binary_size_args,
    docker_poll_step, ensure_file_exists, exit_failure_message, kib_to_bytes, memory_usage_part,
    parse_human_size, parse_i32_from_stdout, parse_size_args, parse_u64_from_stdout,
    rss_from_ps_output, runtime_probe_workload, shell_single_quote, size_usage, Metric,
};
use my_app::{Workload, DEFAULT_ALLOC_BYTES};

fn args(list: &[&str]) -> Vec<String> {
    list.iter().map(|s| s.to_string()).collect()
}

#[test]
fn parse_bench_args_uses_separate_plain_and_aot_artifacts() {
    let config = parse_bench_args(Vec::<String>::new()).unwrap();
    assert_eq!(
        config.wasm_artifact,
        "target/wasm32-wasip1/release/my-app.wasm"
    );
    assert_eq!(config.wasm_aot_artifact, "my-app-aot.wasm");
    assert_eq!(config.summary_output_path, "target/bench-results/summary.csv");

    let overridden = parse_bench_args(args(&[
        "--wasm-artifact",
        "plain.wasm",
        "--wasm-aot-artifact",
        "compiled-aot.so",
        "--summary-output",
        "summary.csv",
    ]))
    .unwrap();
    assert_eq!(overridden.wasm_artifact, "plain.wasm");
    assert_eq!(overridden.wasm_aot_artifact, "compiled-aot.so");
    assert_eq!(overridden.summary_output_path, "summary.csv");
}

#[test]
fn parse_bench_args_defaults_and_errors() {
    let config = parse_bench_args(Vec::<String>::new()).unwrap();
    assert_eq!(config.samples, 30);
    assert_eq!(config.docker_image, "my-docker-app:latest");
    assert_eq!(config.output_path, "target/bench-results/local-bench.csv");
    assert_eq!(
        parse_bench_args(args(&["--samples", "5"])).unwrap().samples,
        5
    );
    assert_eq!(parse_bench_args(args(&["-h"])).unwrap_err(), "--help");
    assert_eq!(
        parse_bench_args(args(&["--samples", "0"])).unwrap_err(),
        "--samples must be at least 1"
    );
    assert_eq!(
        parse_bench_args(args(&["--samples", "many"])).unwrap_err(),
        "invalid value for --samples: many"
    );
    assert_eq!(
        parse_bench_args(args(&["--output"])).unwrap_err(),
        "missing value for --output"
    );
    assert_eq!(
        parse_bench_args(args(&["--nope"])).unwrap_err(),
        format!("unknown argument: --nope\n\n{}", bench_usage())
    );
}

#[test]
fn runtimes_in_order_with_names() {
    let names: Vec<&str> = Runtime::all().iter().map(|r| r.name()).collect();
    assert_eq!(names, vec!["wasmedge-wasm", "wasmedge-aot", "docker"]);
}

#[test]
fn preflight_refuses_missing_artifacts_and_plans_checks() {
    let missing = Runtime::WasmEdgeWasm.preflight("a.wasm", "b.wasm", "img", false);
    assert_eq!(missing.err().unwrap(), "missing plain Wasm artifact: a.wasm");
    let missing = Runtime::WasmEdgeAot.preflight("a.wasm", "b.wasm", "img", false);
    assert_eq!(missing.err().unwrap(), "missing AOT Wasm artifact: b.wasm");
    let check = Runtime::WasmEdgeAot
        .preflight("a.wasm", "b.wasm", "img", true)
        .ok()
        .unwrap();
    assert_eq!(check.program, "wasmedge");
    assert_eq!(check.args, args(&["--version"]));
    assert_eq!(check.hint, None);
    assert_eq!(check.context, "WasmEdge preflight failed: ");
    let check = Runtime::Docker
        .preflight("a.wasm", "b.wasm", "img:1", false)
        .ok()
        .unwrap();
    assert_eq!(check.program, "docker");
    assert_eq!(check.args, args(&["image", "inspect", "img:1"]));
    assert_eq!(
        check.hint,
        Some("Build it with: docker build -t img:1 .".to_string())
    );
    assert_eq!(check.context, "Docker preflight failed: ");
}

#[test]
fn command_failure_messages() {
    assert_eq!(
        command_failure_message("docker", &args(&["image", "inspect", "x"]), 1, "  no such image \n", None),
        "`docker image inspect x` exited with 1: no such image"
    );
    assert_eq!(
        command_failure_message("wasmedge", &args(&["--version"]), -1, " \n", Some("hint".to_string())),
        "`wasmedge --version` exited with -1\nhint"
    );
    assert_eq!(
        exit_failure_message("docker wait abc", i32::MIN, " x "),
        "docker wait abc failed with exit code -2147483648: x"
    );
}

#[test]
fn sample_commands_per_runtime() {
    let config = parse_bench_args(Vec::<String>::new()).unwrap();
    let workload_args = Workload::Fib { n: 40 }.cli_args();
    let (program, full) = sample_command(Runtime::Docker, &config, &workload_args);
    assert_eq!(program, "docker");
    assert_eq!(
        full,
        args(&["run", "--rm", "my-docker-app:latest", "--workload", "fib", "--n", "40"])
    );
    let (program, full) = sample_command(Runtime::WasmEdgeAot, &config, &workload_args);
    assert_eq!(program, "wasmedge");
    assert_eq!(
        full,
        args(&["my-app-aot.wasm", "--workload", "fib", "--n", "40"])
    );
    let custom = BenchConfig {
        wasm_artifact: "p.wasm".to_string(),
        ..config
    };
    let (_, full) = sample_command(Runtime::WasmEdgeWasm, &custom, &Workload::Noop.cli_args());
    assert_eq!(full, args(&["p.wasm", "--workload", "noop"]));
}

#[test]
fn last_nonblank_line_is_trimmed() {
    assert_eq!(last_nonblank_line("a\nb\n"), Some("b".to_string()));
    assert_eq!(last_nonblank_line("a\n  b \r\n \n\n"), Some("b".to_string()));
    assert_eq!(last_nonblank_line("only"), Some("only".to_string()));
    assert_eq!(last_nonblank_line(" \n\t\n"), None);
    assert_eq!(last_nonblank_line(""), None);
    for s in ["x\r\ny\r\n", "\n\n z\n", "a\n\nb c\n \n"] {
        let expected = s
            .lines()
            .rev()
            .find(|l| !l.trim().is_empty())
            .map(|l| l.trim().to_string());
        assert_eq!(last_nonblank_line(s), expected);
    }
}

#[test]
fn sample_messages() {
    assert_eq!(
        sample_failure_message("docker", "fib", 3, 2, " boom\n"),
        "docker fib sample 3 failed with exit code 2: boom"
    );
    assert_eq!(
        no_stdout_message("wasmedge-aot", "noop", 1),
        "wasmedge-aot noop sample 1 produced no stdout"
    );
}

#[test]
fn percentile_uses_nearest_rank() {
    let values = vec![1.0, 2.0, 3.0, 4.0, 5.0];
    assert_eq!(values[nearest_rank_index(values.len(), 50)], 3.0);
    assert_eq!(values[nearest_rank_index(values.len(), 95)], 5.0);
}

#[test]
fn nearest_rank_index_edges() {
    assert_eq!(nearest_rank_index(1, 50), 0);
    assert_eq!(nearest_rank_index(2, 50), 0);
    assert_eq!(nearest_rank_index(2, 95), 1);
    assert_eq!(nearest_rank_index(10, 0), 0);
    assert_eq!(nearest_rank_index(10, 100), 9);
    assert_eq!(nearest_rank_index(3, 200), 2);
}

fn key(runtime: &str, workload: &str, parameter: &str) -> SampleKey {
    SampleKey {
        runtime: runtime.to_string(),
        workload: workload.to_string(),
        parameter: parameter.to_string(),
    }
}

#[test]
fn build_summary_aggregates_rows() {
    let e2e = [100.0_f64, 120.0];
    let startup = [10.0_f64, 20.0];
    let keys = vec![
        key("wasmedge-aot", "fib", "n=40"),
        key("wasmedge-aot", "fib", "n=40"),
    ];
    let groups = summary_groups(&keys);
    let row = groups
        .iter()
        .find(|g| g.runtime.name() == "wasmedge-aot" && g.workload.name() == "fib")
        .unwrap();
    assert_eq!(row.indices.len(), 2);
    let mut sorted: Vec<f64> = row.indices.iter().map(|&i| e2e[i]).collect();
    sorted.sort_by(|a, b| a.partial_cmp(b).unwrap());
    let mean = sorted.iter().sum::<f64>() / sorted.len() as f64;
    assert_eq!(mean, 110.0);
    assert_eq!(sorted[nearest_rank_index(sorted.len(), 50)], 100.0);
    assert_eq!(sorted[nearest_rank_index(sorted.len(), 95)], 120.0);
    let startup_mean =
        row.indices.iter().map(|&i| startup[i]).sum::<f64>() / row.indices.len() as f64;
    assert_eq!(startup_mean, 15.0);
}

#[test]
fn summary_groups_keep_benchmark_order_and_skip_empty_groups() {
    let keys = vec![
        key("docker", "noop", "none"),
        key("wasmedge-wasm", "alloc_touch", "bytes=67108864"),
        key("docker", "noop", "none"),
        key("wasmedge-wasm", "fib", "n=45"),
        key("wasmedge-wasm", "noop", "none"),
    ];
    let groups = summary_groups(&keys);
    let shape: Vec<(&str, &str, Vec<usize>)> = groups
        .iter()
        .map(|g| (g.runtime.name(), g.workload.name(), g.indices.clone()))
        .collect();
    assert_eq!(
        shape,
        vec![
            ("wasmedge-wasm", "noop", vec![4]),
            ("wasmedge-wasm", "alloc_touch", vec![1]),
            ("docker", "noop", vec![0, 2]),
        ]
    );
    assert!(summary_groups(&Vec::new()).is_empty());
}

#[test]
fn parse_size_args_uses_defaults_and_overrides() {
    let config = parse_size_args(Vec::<String>::new()).unwrap();
    assert_eq!(config.docker_image, "my-docker-app:latest");
    assert_eq!(config.docker_app_path, "/usr/local/cargo/bin/my-app");
    assert_eq!(
        config.wasm_artifact,
        "target/wasm32-wasip1/release/my-app.wasm"
    );
    assert_eq!(config.wasm_aot_artifact, "my-app-aot.wasm");
    assert_eq!(config.output_path, "target/bench-results/space-size.csv");
    assert_eq!(config.runtime_bytes, DEFAULT_ALLOC_BYTES);
    assert_eq!(config.runtime_hold_ms, 1_200);
    assert_eq!(config.runtime_poll_ms, 100);

    let overridden = parse_size_args(args(&[
        "--docker-image",
        "custom-image:latest",
        "--docker-app-path",
        "/app/custom",
        "--wasm-artifact",
        "plain.wasm",
        "--wasm-aot-artifact",
        "compiled-aot.so",
        "--output",
        "space.csv",
        "--runtime-bytes",
        "2048",
        "--hold-ms",
        "250",
        "--poll-ms",
        "5",
    ]))
    .unwrap();

    assert_eq!(overridden.docker_image, "custom-image:latest");
    assert_eq!(overridden.docker_app_path, "/app/custom");
    assert_eq!(overridden.wasm_artifact, "plain.wasm");
    assert_eq!(overridden.wasm_aot_artifact, "compiled-aot.so");
    assert_eq!(overridden.output_path, "space.csv");
    assert_eq!(overridden.runtime_bytes, 2048);
    assert_eq!(overridden.runtime_hold_ms, 250);
    assert_eq!(overridden.runtime_poll_ms, 5);
}

#[test]
fn parse_size_args_errors() {
    assert_eq!(parse_size_args(args(&["--help"])).unwrap_err(), "--help");
    assert_eq!(
        parse_size_args(args(&["--poll-ms", "0"])).unwrap_err(),
        "--poll-ms must be at least 1"
    );
    assert_eq!(
        parse_size_args(args(&["--hold-ms", "1.5"])).unwrap_err(),
        "invalid value for --hold-ms: 1.5"
    );
    assert_eq!(
        parse_size_args(args(&["--runtime-bytes"])).unwrap_err(),
        "missing value for --runtime-bytes"
    );
    assert_eq!(
        parse_size_args(args(&["x"])).unwrap_err(),
        format!("unknown argument: x\n\n{}", size_usage())
    );
}

#[test]
fn runtime_probe_uses_alloc_touch_hold() {
    let config = my_app::bench_size::BenchConfig {
        docker_image: "image".to_string(),
        docker_app_path: "/usr/local/bin/app".to_string(),
        wasm_artifact: "plain.wasm".to_string(),
        wasm_aot_artifact: "aot.wasm".to_string(),
        output_path: "out.csv".to_string(),
        runtime_bytes: 4096,
        runtime_hold_ms: 300,
        runtime_poll_ms: 10,
    };
    let workload = runtime_probe_workload(&config);

    assert_eq!(
        workload,
        Workload::AllocTouch {
            bytes: 4096,
            hold_ms: 300,
        }
    );
    assert_eq!(
        command_args_from_path("plain.wasm", &workload),
        args(&["plain.wasm", "--workload", "alloc_touch", "--bytes", "4096", "--hold-ms", "300"])
    );
}

#[test]
fn parse_human_size_supports_binary_units() {
    let bytes = |s: &str| {
        let h = parse_human_size(s).unwrap();
        (h.number.parse::<f64>().unwrap() * h.multiplier as f64).round() as u64
    };
    assert_eq!(bytes("512B"), 512);
    assert_eq!(bytes("1KiB"), 1024);
    assert_eq!(bytes("1.5MiB"), 1_572_864);
    assert_eq!(bytes("2 GiB"), 2_147_483_648);
}

#[test]
fn parse_human_size_units_and_errors() {
    assert_eq!(parse_human_size(" 3 ").unwrap().multiplier, 1);
    assert_eq!(parse_human_size("3kB").unwrap().multiplier, 1024);
    assert_eq!(parse_human_size("3TB").unwrap().multiplier, 1 << 40);
    assert_eq!(parse_human_size("  ").err().unwrap(), "size string was empty");
    assert_eq!(parse_human_size("MiB").err().unwrap(), "invalid size value: MiB");
    assert_eq!(parse_human_size("1.2.3B").err().unwrap(), "invalid size value: 1.2.3B");
    assert_eq!(parse_human_size("5 PiB").err().unwrap(), "unsupported size unit: PiB");
    assert_eq!(parse_human_size("5 kib").err().unwrap(), "unsupported size unit: kib");
}

#[test]
fn csv_escape_quotes_fields_with_commas() {
    assert_eq!(csv_escape("plain"), "plain");
    assert_eq!(csv_escape("bytes=1,hold_ms=2"), "\"bytes=1,hold_ms=2\"");
    assert_eq!(csv_escape("with\"quote"), "\"with\"\"quote\"");
}

#[test]
fn csv_escape_quotes_newlines() {
    assert_eq!(csv_escape("a\nb"), "\"a\nb\"");
    assert_eq!(csv_escape(""), "");
}

#[test]
fn shell_single_quote_escapes_quotes() {
    assert_eq!(shell_single_quote("/plain/path"), "/plain/path");
    assert_eq!(shell_single_quote("/a'b"), "/a'\"'\"'b");
}

#[test]
fn docker_size_command_quotes_the_path() {
    assert_eq!(
        docker_binary_size_args("img", "/a'b"),
        args(&["run", "--rm", "--entrypoint", "/bin/sh", "img", "-lc", "wc -c <'/a'\"'\"'b'"])
    );
}

#[test]
fn stdout_numbers() {
    assert_eq!(parse_u64_from_stdout(" 1234\n", "size"), Ok(1234));
    assert_eq!(
        parse_u64_from_stdout("\n", "size"),
        Err("size returned an empty value".to_string())
    );
    assert_eq!(
        parse_u64_from_stdout("12 kB", "size"),
        Err("size returned invalid value: 12 kB".to_string())
    );
    assert_eq!(parse_i32_from_stdout("-3\n", "docker wait"), Ok(-3));
    assert_eq!(parse_i32_from_stdout("+0", "docker wait"), Ok(0));
    assert_eq!(parse_i32_from_stdout("-2147483648", "w"), Ok(i32::MIN));
    assert_eq!(
        parse_i32_from_stdout("2147483648", "w"),
        Err("w returned invalid value: 2147483648".to_string())
    );
    assert_eq!(rss_from_ps_output("  5120\n", 7), Ok(Some(5120)));
    assert_eq!(rss_from_ps_output(" \n", 7), Ok(None));
    assert_eq!(
        rss_from_ps_output("x", 7),
        Err("unexpected `ps` rss output for pid 7: x".to_string())
    );
}

#[test]
fn docker_outputs() {
    assert_eq!(
        memory_usage_part("  12.5MiB / 1.9GiB\n"),
        Some("12.5MiB".to_string())
    );
    assert_eq!(memory_usage_part("3KiB"), Some("3KiB".to_string()));
    assert_eq!(memory_usage_part(" \n"), None);
    assert_eq!(docker_poll_step("c1", "running"), Ok(true));
    assert_eq!(docker_poll_step("c1", "created"), Ok(true));
    assert_eq!(docker_poll_step("c1", "restarting"), Ok(true));
    assert_eq!(docker_poll_step("c1", "exited"), Ok(false));
    assert_eq!(docker_poll_step("c1", "dead"), Ok(false));
    assert_eq!(
        docker_poll_step("c1", "paused"),
        Err("unexpected Docker state for c1: paused".to_string())
    );
    assert_eq!(container_id_from_stdout(" abc\n", "img"), Ok("abc".to_string()));
    assert_eq!(
        container_id_from_stdout("\n", "img"),
        Err("docker run -d img returned an empty container id".to_string())
    );
}

#[test]
fn small_helpers() {
    assert_eq!(kib_to_bytes(3), 3072);
    assert_eq!(kib_to_bytes(u64::MAX), u64::MAX);
    assert_eq!(Metric::ArtifactOnly.name(), "artifact_only");
    assert_eq!(Metric::FullDeploySize.name(), "full_deploy_size");
    assert_eq!(Metric::RuntimePeakRss.name(), "runtime_peak_rss");
    assert_eq!(ensure_file_exists(true, "a", "b"), Ok(()));
    assert_eq!(
        ensure_file_exists(false, "x.wasm", "AOT Wasm artifact"),
        Err("missing AOT Wasm artifact: x.wasm".to_string())
    );
}
