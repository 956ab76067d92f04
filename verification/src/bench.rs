//! What the two benchmark drivers share: the runtimes they compare and the
//! message for a command that failed.

use vstd::prelude::*;

use crate::decimal::{i32_to_string, int_str};
use crate::text::{trim, trim_str};
use crate::workload::arg_views;

verus! {

/// A way of running the application.
#[derive(Clone, Copy, Debug, PartialEq, Eq, Structural)]
pub enum Runtime {
    WasmEdgeWasm,
    WasmEdgeAot,
    Docker,
}

impl Runtime {
    /// The runtimes, in the order in which the drivers measure them.
    pub fn all() -> (r: [Runtime; 3])
        ensures
            r@ == seq![Runtime::WasmEdgeWasm, Runtime::WasmEdgeAot, Runtime::Docker],
    {
        let r = [Runtime::WasmEdgeWasm, Runtime::WasmEdgeAot, Runtime::Docker];
        assert(r@ =~= seq![Runtime::WasmEdgeWasm, Runtime::WasmEdgeAot, Runtime::Docker]);
        r
    }

    /// The name of the runtime in reports.
    pub open spec fn name_spec(self) -> Seq<char> {
        match self {
            Runtime::WasmEdgeWasm => "wasmedge-wasm"@,
            Runtime::WasmEdgeAot => "wasmedge-aot"@,
            Runtime::Docker => "docker"@,
        }
    }

    /// The name of the runtime in reports.
    pub fn name(self) -> (r: &'static str)
        ensures
            r@ == self.name_spec(),
    {
        match self {
            Runtime::WasmEdgeWasm => "wasmedge-wasm",
            Runtime::WasmEdgeAot => "wasmedge-aot",
            Runtime::Docker => "docker",
        }
    }
}

/// The texts joined, with `sep` between two neighbours (`[..].join(sep)`).
pub open spec fn join(parts: Seq<Seq<char>>, sep: Seq<char>) -> Seq<char>
    decreases parts.len(),
{
    if parts.len() == 0 {
        Seq::empty()
    } else if parts.len() == 1 {
        parts[0]
    } else {
        join(parts.drop_last(), sep) + sep + parts.last()
    }
}

/// `parts.join(sep)`.
pub fn join_strings(parts: &Vec<String>, sep: &str) -> (r: String)
    ensures
        r@ == join(crate::workload::arg_views(parts@), sep@),
{
    let ghost views = crate::workload::arg_views(parts@);
    let mut r = String::new();
    let mut i: usize = 0;
    while i < parts.len()
        invariant
            i <= parts@.len(),
            views == crate::workload::arg_views(parts@),
            r@ == join(views.take(i as int), sep@),
        decreases parts@.len() - i,
    {
        if i > 0 {
            r.append(sep);
        }
        r.append(parts[i].as_str());
        assert(views.take(i + 1).drop_last() =~= views.take(i as int));
        i = i + 1;
        if i == 1 {
            assert(views.take(1) =~= seq![views[0]]);
            assert(r@ =~= join(views.take(1), sep@));
        }
    }
    assert(views.take(parts@.len() as int) =~= views);
    r
}

/// The message for a command that ran and failed: the command line, the
/// exit code, the trimmed standard error when there is any, and the hint on
/// a line of its own when there is one.
pub open spec fn command_failure_text(
    program: Seq<char>,
    args: Seq<Seq<char>>,
    code: int,
    stderr: Seq<char>,
    hint: Option<Seq<char>>,
) -> Seq<char> {
    let head = "`"@ + program + " "@ + join(args, " "@) + "` exited with "@ + int_str(code);
    let with_err = if trim(stderr).len() == 0 {
        head
    } else {
        head + ": "@ + trim(stderr)
    };
    match hint {
        Some(h) => with_err + "\n"@ + h,
        None => with_err,
    }
}

/// The message for a command that ran and failed with exit code `code`
/// (`-1` when it was ended by a signal).
pub fn command_failure_message(
    program: &str,
    args: &Vec<String>,
    code: i32,
    stderr: &str,
    hint: Option<String>,
) -> (r: String)
    ensures
        r@ == command_failure_text(
            program@,
            crate::workload::arg_views(args@),
            code as int,
            stderr@,
            match hint {
                Some(h) => Some(h@),
                None => None,
            },
        ),
{
    let mut m = String::new();
    m.append("`");
    m.append(program);
    m.append(" ");
    let joined = join_strings(args, " ");
    m.append(joined.as_str());
    m.append("` exited with ");
    let c = i32_to_string(code);
    m.append(c.as_str());
    let err = trim_str(stderr);
    if err.as_str().unicode_len() > 0 {
        m.append(": ");
        m.append(err.as_str());
    }
    match hint {
        Some(h) => {
            m.append("\n");
            m.append(h.as_str());
        },
        None => {},
    }
    m
}

/// A command to run before measuring, and what to put before its failure
/// message.
pub struct CommandCheck {
    pub program: String,
    pub args: Vec<String>,
    pub hint: Option<String>,
    pub context: String,
}

impl Runtime {
    /// The artifact that the runtime needs on disk, if any.
    pub open spec fn artifact_spec(self, wasm_artifact: Seq<char>, wasm_aot_artifact: Seq<char>) -> Option<Seq<char>> {
        match self {
            Runtime::WasmEdgeWasm => Some(wasm_artifact),
            Runtime::WasmEdgeAot => Some(wasm_aot_artifact),
            Runtime::Docker => None,
        }
    }

    /// The artifact that the runtime needs on disk, if any.
    pub fn artifact(self, wasm_artifact: &str, wasm_aot_artifact: &str) -> (r: Option<String>)
        ensures
            match self.artifact_spec(wasm_artifact@, wasm_aot_artifact@) {
                Some(a) => r matches Some(s) && s@ == a,
                None => r is None,
            },
    {
        match self {
            Runtime::WasmEdgeWasm => Some(crate::workload::owned(wasm_artifact)),
            Runtime::WasmEdgeAot => Some(crate::workload::owned(wasm_aot_artifact)),
            Runtime::Docker => None,
        }
    }

    /// The check that a runtime is ready: a missing artifact is refused at
    /// once (`artifact_is_file` tells whether the artifact exists as a file);
    /// otherwise `wasmedge --version` or `docker image inspect <image>` is to
    /// be run, its failure reported after the context.
    pub fn preflight(
        self,
        wasm_artifact: &str,
        wasm_aot_artifact: &str,
        docker_image: &str,
        artifact_is_file: bool,
    ) -> (r: Result<CommandCheck, String>)
        ensures
            match self {
                Runtime::WasmEdgeWasm => if !artifact_is_file {
                    r matches Err(m) && m@ == "missing plain Wasm artifact: "@ + wasm_artifact@
                } else {
                    r matches Ok(c) && c.program@ == "wasmedge"@ && arg_views(c.args@) == seq![
                        "--version"@,
                    ] && c.hint is None && c.context@ == "WasmEdge preflight failed: "@
                },
                Runtime::WasmEdgeAot => if !artifact_is_file {
                    r matches Err(m) && m@ == "missing AOT Wasm artifact: "@ + wasm_aot_artifact@
                } else {
                    r matches Ok(c) && c.program@ == "wasmedge"@ && arg_views(c.args@) == seq![
                        "--version"@,
                    ] && c.hint is None && c.context@ == "WasmEdge preflight failed: "@
                },
                Runtime::Docker => r matches Ok(c) && {
                    &&& c.program@ == "docker"@
                    &&& arg_views(c.args@) == seq!["image"@, "inspect"@, docker_image@]
                    &&& (c.hint matches Some(h) && h@ == "Build it with: docker build -t "@
                        + docker_image@ + " ."@)
                    &&& c.context@ == "Docker preflight failed: "@
                },
            },
    {
        match self {
            Runtime::WasmEdgeWasm | Runtime::WasmEdgeAot => {
                if !artifact_is_file {
                    let mut m = String::new();
                    match self {
                        Runtime::WasmEdgeWasm => {
                            m.append("missing plain Wasm artifact: ");
                            m.append(wasm_artifact);
                        },
                        _ => {
                            m.append("missing AOT Wasm artifact: ");
                            m.append(wasm_aot_artifact);
                        },
                    }
                    return Err(m);
                }
                let mut args: Vec<String> = Vec::new();
                args.push(crate::workload::owned("--version"));
                assert(arg_views(args@) =~= seq!["--version"@]);
                Ok(
                    CommandCheck {
                        program: crate::workload::owned("wasmedge"),
                        args,
                        hint: None,
                        context: crate::workload::owned("WasmEdge preflight failed: "),
                    },
                )
            },
            Runtime::Docker => {
                let mut args: Vec<String> = Vec::new();
                args.push(crate::workload::owned("image"));
                args.push(crate::workload::owned("inspect"));
                args.push(crate::workload::owned(docker_image));
                assert(arg_views(args@) =~= seq!["image"@, "inspect"@, docker_image@]);
                let mut hint = String::new();
                hint.append("Build it with: docker build -t ");
                hint.append(docker_image);
                hint.append(" .");
                Ok(
                    CommandCheck {
                        program: crate::workload::owned("docker"),
                        args,
                        hint: Some(hint),
                        context: crate::workload::owned("Docker preflight failed: "),
                    },
                )
            },
        }
    }
}

} // verus!
