use my_app::decimal::is_float_text;
use my_app::{
    app_output_json_is_readable, escape_json_string, parse_app_output_json,
    render_app_output_json, AppOutput,
};

fn output(workload: &str, parameter: &str, digest: u64, ms: &str) -> AppOutput {
    AppOutput {
        workload: workload.to_string(),
        parameter: parameter.to_string(),
        result_digest: digest,
        internal_compute_ms: ms.to_string(),
    }
}

#[test]
fn json_round_trip_preserves_output() {
    let ms = format!("{:.6}", 123.456789_f64);
    let original = output("fib", "n=40", 102_334_155, &ms);

    let decoded = parse_app_output_json(&render_app_output_json(&original)).unwrap();
    assert_eq!(decoded.workload, original.workload);
    assert_eq!(decoded.parameter, original.parameter);
    assert_eq!(decoded.result_digest, original.result_digest);
    let decoded_ms: f64 = decoded.internal_compute_ms.parse().unwrap();
    assert!((decoded_ms - 123.456789).abs() < 0.000_001);
}

#[test]
fn render_matches_the_documented_line() {
    let line = render_app_output_json(&output("fib", "n=40", 102334155, "141.444000"));
    assert_eq!(
        line,
        "{\"workload\":\"fib\",\"parameter\":\"n=40\",\"result_digest\":102334155,\"internal_compute_ms\":141.444000}"
    );
}

#[test]
fn escape_doubles_backslashes_then_quotes() {
    assert_eq!(escape_json_string("plain"), "plain");
    assert_eq!(escape_json_string("a\"b"), "a\\\"b");
    assert_eq!(escape_json_string("a\\b"), "a\\\\b");
    assert_eq!(escape_json_string("\\\""), "\\\\\\\"");
}

#[test]
fn round_trip_with_awkward_texts() {
    let cases = [
        ("\"parameter\":", "x\\", 0u64, "0.000000"),
        ("", "", u64::MAX, "inf"),
        ("a\"b\\c", "\\\"\\\"", 7, "-inf"),
        ("é ü", ",}{", 42, "NaN"),
        ("\"result_digest\":1,", "\"internal_compute_ms\":", 1, "1e5"),
    ];
    for (w, p, d, ms) in cases {
        let original = output(w, p, d, ms);
        let line = render_app_output_json(&original);
        assert!(app_output_json_is_readable(&line));
        assert_eq!(parse_app_output_json(&line).unwrap(), original);
    }
}

#[test]
fn parse_accepts_surrounding_whitespace_and_spaced_values() {
    let line = "  {\"workload\":\"noop\",\"parameter\":\"none\",\"result_digest\": 12 ,\"internal_compute_ms\": 0.5 }\n";
    let decoded = parse_app_output_json(line).unwrap();
    assert_eq!(decoded, output("noop", "none", 12, "0.5"));
}

#[test]
fn report_parse_errors_carry_their_messages() {
    assert_eq!(
        parse_app_output_json("[1]").unwrap_err(),
        "application output was not valid JSON object syntax"
    );
    assert_eq!(parse_app_output_json("{}").unwrap_err(), "missing field workload");
    assert_eq!(
        parse_app_output_json("{\"workload\":\"abc}").unwrap_err(),
        "unterminated JSON string"
    );
    assert_eq!(
        parse_app_output_json("{\"workload\":12}").unwrap_err(),
        "field workload was not a JSON string"
    );
    assert_eq!(
        parse_app_output_json("{\"workload\":\"a\"}").unwrap_err(),
        "missing field parameter"
    );
    assert_eq!(
        parse_app_output_json(
            "{\"workload\":\"a\",\"parameter\":\"b\",\"result_digest\":-1}"
        )
        .unwrap_err(),
        "field result_digest was not a valid u64"
    );
    assert_eq!(
        parse_app_output_json(
            "{\"workload\":\"a\",\"parameter\":\"b\",\"result_digest\":1,\"internal_compute_ms\":fast}"
        )
        .unwrap_err(),
        "field internal_compute_ms was not a valid f64"
    );
}

#[test]
fn lone_quote_values_are_flagged() {
    assert!(!app_output_json_is_readable("{\"workload\": \",\"parameter\":\"b\"}"));
    assert!(!app_output_json_is_readable(
        "{\"workload\":\"a\",\"parameter\": \" }"
    ));
    assert!(app_output_json_is_readable("{\"workload\":1,\"parameter\": \" }"));
    assert!(app_output_json_is_readable("not json"));
}

#[test]
fn float_text_follows_the_f64_grammar() {
    let accepted = [
        "0", "1.", ".5", "1.5", "+1", "-0.0", "1e5", "1E-5", "2.5e+3", "inf", "-Infinity", "NaN",
        "nan", "+INF",
    ];
    let refused = ["", ".", "+", "e5", "1e", "1.2.3", "1,5", " 1", "infx", "0x10", "1e+"];
    for s in accepted {
        assert!(is_float_text(s), "{s}");
        assert!(s.parse::<f64>().is_ok(), "{s}");
    }
    for s in refused {
        assert!(!is_float_text(s), "{s}");
        assert!(s.parse::<f64>().is_err(), "{s}");
    }
}
