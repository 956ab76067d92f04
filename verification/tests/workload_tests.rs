use my_app::{
    alloc_touch_buffer, app_usage, fibonacci, parse_app_args, ParseAppArgsError, Workload,
    APP_USAGE, DEFAULT_ALLOC_BYTES, MAX_FIB_N,
};

fn args(list: &[&str]) -> Vec<String> {
    list.iter().map(|s| s.to_string()).collect()
}

fn message_of(result: Result<Workload, ParseAppArgsError>) -> String {
    match result {
        Err(ParseAppArgsError::Message(m)) => m,
        other => panic!("expected a message, got {:?}", other),
    }
}

#[test]
fn default_args_use_fib_45() {
    assert_eq!(
        parse_app_args(Vec::<String>::new()).unwrap(),
        Workload::Fib { n: 45 }
    );
}

#[test]
fn alloc_touch_args_parse() {
    let list = args(&["--workload", "alloc_touch", "--bytes", "8192"]);
    assert_eq!(
        parse_app_args(list).unwrap(),
        Workload::AllocTouch {
            bytes: 8192,
            hold_ms: 0,
        }
    );
}

#[test]
fn alloc_touch_hold_args_parse() {
    let list = args(&[
        "--workload",
        "alloc_touch",
        "--bytes",
        "8192",
        "--hold-ms",
        "250",
    ]);
    assert_eq!(
        parse_app_args(list).unwrap(),
        Workload::AllocTouch {
            bytes: 8192,
            hold_ms: 250,
        }
    );
}

#[test]
fn help_is_requested_anywhere() {
    assert_eq!(
        parse_app_args(args(&["--n", "3", "-h"])),
        Err(ParseAppArgsError::HelpRequested)
    );
    assert_eq!(
        parse_app_args(args(&["--bogus", "--help"])),
        Err(ParseAppArgsError::HelpRequested)
    );
}

#[test]
fn noop_and_fib_parse() {
    assert_eq!(parse_app_args(args(&["--workload", "noop"])).unwrap(), Workload::Noop);
    assert_eq!(
        parse_app_args(args(&["--n", "+7"])).unwrap(),
        Workload::Fib { n: 7 }
    );
    assert_eq!(
        parse_app_args(args(&["--workload", "alloc_touch"])).unwrap(),
        Workload::AllocTouch {
            bytes: DEFAULT_ALLOC_BYTES,
            hold_ms: 0
        }
    );
    assert_eq!(
        parse_app_args(args(&["--workload", "fib", "--workload", "noop"])).unwrap(),
        Workload::Noop
    );
}

#[test]
fn parse_errors_carry_their_messages() {
    assert_eq!(
        message_of(parse_app_args(args(&["--workload"]))),
        "missing value for --workload"
    );
    assert_eq!(message_of(parse_app_args(args(&["--n"]))), "missing value for --n");
    assert_eq!(
        message_of(parse_app_args(args(&["--n", "-1"]))),
        "invalid value for --n: -1 (expected unsigned 32-bit integer)"
    );
    assert_eq!(
        message_of(parse_app_args(args(&["--n", "4294967296"]))),
        "invalid value for --n: 4294967296 (expected unsigned 32-bit integer)"
    );
    assert_eq!(
        message_of(parse_app_args(args(&["--bytes", "x"]))),
        "invalid value for --bytes: x (expected non-negative integer)"
    );
    assert_eq!(
        message_of(parse_app_args(args(&["--hold-ms", ""]))),
        "invalid value for --hold-ms:  (expected unsigned 64-bit integer)"
    );
    assert_eq!(
        message_of(parse_app_args(args(&["--workload", "noop", "--n", "3"]))),
        "--n is only valid with --workload fib"
    );
    assert_eq!(
        message_of(parse_app_args(args(&["--bytes", "3"]))),
        "--bytes is only valid with --workload alloc_touch"
    );
    assert_eq!(
        message_of(parse_app_args(args(&["--workload", "noop", "--hold-ms", "3"]))),
        "--hold-ms is only valid with --workload alloc_touch"
    );
    assert_eq!(
        message_of(parse_app_args(args(&["--workload", "alloc_touch", "--n", "3"]))),
        "--n is only valid with --workload fib"
    );
    assert_eq!(
        message_of(parse_app_args(args(&["--workload", "sleep"]))),
        "unsupported workload: sleep\nexpected one of: noop, fib, alloc_touch"
    );
    assert_eq!(
        message_of(parse_app_args(args(&["--x"]))),
        format!("unknown argument: --x\n\n{}", app_usage())
    );
}

#[test]
fn error_text_shows_usage_or_message() {
    assert_eq!(ParseAppArgsError::HelpRequested.to_string(), APP_USAGE);
    assert_eq!(
        ParseAppArgsError::Message("boom".to_string()).to_string(),
        "boom"
    );
    assert!(app_usage().starts_with("Usage:\n  my-app [--workload noop]"));
    assert!(app_usage().ends_with("hold_ms=0"));
}

#[test]
fn names_and_parameters() {
    assert_eq!(Workload::Noop.name(), "noop");
    assert_eq!(Workload::Fib { n: 1 }.name(), "fib");
    assert_eq!(
        Workload::AllocTouch {
            bytes: 1,
            hold_ms: 0
        }
        .name(),
        "alloc_touch"
    );
    assert_eq!(Workload::Noop.parameter(), "none");
    assert_eq!(Workload::Fib { n: 40 }.parameter(), "n=40");
    assert_eq!(
        Workload::AllocTouch {
            bytes: 67108864,
            hold_ms: 0
        }
        .parameter(),
        "bytes=67108864"
    );
    assert_eq!(
        Workload::AllocTouch {
            bytes: 1,
            hold_ms: 2
        }
        .parameter(),
        "bytes=1,hold_ms=2"
    );
}

#[test]
fn cli_args_list_the_options() {
    assert_eq!(Workload::Noop.cli_args(), args(&["--workload", "noop"]));
    assert_eq!(
        Workload::Fib { n: 0 }.cli_args(),
        args(&["--workload", "fib", "--n", "0"])
    );
    assert_eq!(
        Workload::AllocTouch {
            bytes: 4096,
            hold_ms: 0
        }
        .cli_args(),
        args(&["--workload", "alloc_touch", "--bytes", "4096"])
    );
    assert_eq!(
        Workload::AllocTouch {
            bytes: 4096,
            hold_ms: 300
        }
        .cli_args(),
        args(&["--workload", "alloc_touch", "--bytes", "4096", "--hold-ms", "300"])
    );
}

#[test]
fn cli_args_parse_back_to_the_workload() {
    let workloads = [
        Workload::Noop,
        Workload::Fib { n: 0 },
        Workload::Fib { n: u32::MAX },
        Workload::AllocTouch {
            bytes: usize::MAX,
            hold_ms: 0,
        },
        Workload::AllocTouch {
            bytes: 0,
            hold_ms: u64::MAX,
        },
    ];
    for w in workloads {
        assert_eq!(parse_app_args(w.cli_args()).unwrap(), w);
    }
}

#[test]
fn fibonacci_values() {
    assert_eq!(fibonacci(0), 0);
    assert_eq!(fibonacci(1), 1);
    assert_eq!(fibonacci(2), 1);
    assert_eq!(fibonacci(10), 55);
    assert_eq!(fibonacci(30), 832040);
    assert_eq!(MAX_FIB_N, 47);
}

fn reference_digest(bytes: usize) -> (Vec<u8>, u64) {
    let mut buffer = vec![0_u8; bytes];
    let mut digest = 14_695_981_039_346_656_037_u64 ^ bytes as u64;
    let mut index = 0;
    while index < bytes {
        let value = ((index / 4096) as u8).wrapping_mul(31).wrapping_add(17);
        buffer[index] = value;
        digest = digest.wrapping_mul(1_099_511_628_211);
        digest ^= value as u64;
        index += 4096;
    }
    if bytes > 0 {
        buffer[bytes - 1] = buffer[bytes - 1].wrapping_add(0xA5);
        digest = digest.wrapping_mul(1_099_511_628_211);
        digest ^= buffer[bytes - 1] as u64;
    }
    let len = buffer.len() as u64;
    (buffer, digest ^ len)
}

#[test]
fn alloc_touch_writes_pages_and_digest() {
    for bytes in [0usize, 1, 4095, 4096, 4097, 8192, 1 << 20] {
        let (buffer, digest) = alloc_touch_buffer(bytes);
        let (expected_buffer, expected_digest) = reference_digest(bytes);
        assert_eq!(buffer.len(), bytes);
        assert_eq!(buffer, expected_buffer);
        assert_eq!(digest, expected_digest);
    }
    let (buffer, _) = alloc_touch_buffer(8192);
    assert_eq!(buffer[0], 17);
    assert_eq!(buffer[4096], 48);
    assert_eq!(buffer[1], 0);
    assert_eq!(buffer[8191], 0xA5);
    let (_, d0) = alloc_touch_buffer(0);
    assert_eq!(d0, 14_695_981_039_346_656_037_u64);
}
