//! The workload library of the `my-app` cold-start benchmark: the workloads
//! that the application runs, its command line, its one-line JSON report,
//! and the decisions of the two benchmark drivers (local cold-start timing
//! and deployment size), each stated over plain values and proved.

pub mod bench;
pub mod bench_local;
pub mod bench_size;
pub mod decimal;
pub mod json;
pub mod json_law;
pub mod text;
pub mod workload;

pub use json::{
    app_output_json_is_readable, escape_json_string, parse_app_output_json,
    render_app_output_json, AppOutput,
};
pub use workload::{
    alloc_touch_buffer, app_usage, fibonacci, parse_app_args, ParseAppArgsError, Workload,
    APP_USAGE, DEFAULT_ALLOC_BYTES, DEFAULT_BENCH_FIB_N, DEFAULT_FIB_N, MAX_FIB_N,
};
