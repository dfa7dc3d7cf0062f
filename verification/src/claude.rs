//! Invocation plumbing for the managed CLI: option defaults, command-line
//! construction, and the mapping from process outcomes to caller results.
//!
//! The embedding application spawns the process and collects its streams;
//! everything it passes on the command line and everything it reports back
//! to the caller is computed here.

use vstd::prelude::*;
use vstd::string::*;
use crate::result::CommandResult;
use crate::text::{opt_view, spec_trim, trim};

verus! {

/// Options accepted by the one-shot CLI invocations.
#[derive(Debug)]
pub struct ClaudeOptions {
    pub model: Option<String>,
    pub session_id: Option<String>,
    pub continue_session: bool,
    pub cwd: Option<String>,
}

impl Default for ClaudeOptions {
    /// No model override, no session to resume or continue, and the
    /// caller's working directory.
    fn default() -> (r: Self)
        ensures
            r.model is None,
            r.session_id is None,
            !r.continue_session,
            r.cwd is None,
    {
        ClaudeOptions { model: None, session_id: None, continue_session: false, cwd: None }
    }
}

/// The argument list handed to the CLI for a one-shot invocation: the
/// prompt, the output format, then the model and session options that are
/// set.  `--continue` wins over `--resume` when both are requested.
pub open spec fn spec_claude_args(
    prompt: Seq<char>,
    model: Option<Seq<char>>,
    continue_session: bool,
    session_id: Option<Seq<char>>,
    format: Seq<char>,
) -> Seq<Seq<char>> {
    let base = seq!["-p"@, prompt, "--output-format"@, format];
    let with_model = if model is Some {
        base.push("--model"@).push(model->0)
    } else {
        base
    };
    if continue_session {
        with_model.push("--continue"@)
    } else if session_id is Some {
        with_model.push("--resume"@).push(session_id->0)
    } else {
        with_model
    }
}

/// Builds the argument list for a one-shot invocation; `stream` selects
/// the streaming output format.
pub fn claude_args(prompt: &str, options: &ClaudeOptions, stream: bool) -> (r: Vec<String>)
    ensures
        r@.map(|i: int, s: String| s@) == spec_claude_args(
            prompt@,
            opt_view(options.model),
            options.continue_session,
            opt_view(options.session_id),
            if stream {
                "stream-json"@
            } else {
                "json"@
            },
        ),
{
    let mut args: Vec<String> = Vec::new();
    args.push(String::from_str("-p"));
    args.push(String::from_str(prompt));
    args.push(String::from_str("--output-format"));
    if stream {
        args.push(String::from_str("stream-json"));
    } else {
        args.push(String::from_str("json"));
    }
    match &options.model {
        Some(m) => {
            args.push(String::from_str("--model"));
            args.push(m.clone());
        },
        None => {},
    }
    if options.continue_session {
        args.push(String::from_str("--continue"));
    } else {
        match &options.session_id {
            Some(sid) => {
                args.push(String::from_str("--resume"));
                args.push(sid.clone());
            },
            None => {},
        }
    }
    proof {
        assert(args@.map(|i: int, s: String| s@) =~= spec_claude_args(
            prompt@,
            opt_view(options.model),
            options.continue_session,
            opt_view(options.session_id),
            if stream {
                "stream-json"@
            } else {
                "json"@
            },
        ));
    }
    args
}

/// The arguments a managed-CLI terminal session is started with: just the
/// resume flag and token when a prior session is to be picked up.
pub fn claude_session_args(resume_session: &Option<String>) -> (r: Vec<String>)
    ensures
        match resume_session {
            None => r@.len() == 0,
            Some(s) => r@.len() == 2 && r@[0]@ == "--resume"@ && r@[1]@ == s@,
        },
{
    let mut args: Vec<String> = Vec::new();
    match resume_session {
        Some(s) => {
            args.push(String::from_str("--resume"));
            args.push(s.clone());
        },
        None => {},
    }
    args
}

/// How an attempt to run the CLI to completion ended: the process ran and
/// exited (successfully or not, with its decoded output streams), or it
/// could not be launched at all.
pub enum InvokeOutcome {
    Completed { status_ok: bool, stdout: String, stderr: String },
    LaunchFailed(String),
}

/// Turns the outcome of a `--version` run into the caller's result: the
/// trimmed standard output on success, a fixed complaint when the CLI ran
/// but failed, and the launch error otherwise.
pub fn version_outcome(o: &InvokeOutcome) -> (r: CommandResult<String>)
    ensures
        match o {
            InvokeOutcome::Completed { status_ok, stdout, .. } => {
                if *status_ok {
                    r.success && (r.data matches Some(v) && v@ == spec_trim(stdout@))
                        && r.error is None
                } else {
                    !r.success && r.data is None && (r.error matches Some(e)
                        && e@ == "CLI not found or returned an error"@)
                }
            },
            InvokeOutcome::LaunchFailed(d) => !r.success && r.data is None
                && (r.error matches Some(e)
                    && e@ == "Failed to execute CLI: "@ + d@),
        },
{
    match o {
        InvokeOutcome::Completed { status_ok, stdout, .. } => {
            if *status_ok {
                CommandResult::ok(String::from_str(trim(stdout.as_str())))
            } else {
                CommandResult::err(String::from_str("CLI not found or returned an error"))
            }
        },
        InvokeOutcome::LaunchFailed(d) => CommandResult::err(
            String::from_str("Failed to execute CLI: ").concat(d.as_str()),
        ),
    }
}

/// Turns the outcome of a one-shot invocation into the caller's result:
/// standard output verbatim on success, standard error as the failure
/// message when the CLI exited unsuccessfully, and the launch error
/// otherwise.
pub fn invoke_outcome(o: &InvokeOutcome) -> (r: CommandResult<String>)
    ensures
        match o {
            InvokeOutcome::Completed { status_ok, stdout, stderr } => {
                if *status_ok {
                    r.success && (r.data matches Some(v) && v@ == stdout@) && r.error is None
                } else {
                    !r.success && r.data is None
                        && (r.error matches Some(e) && e@ == stderr@)
                }
            },
            InvokeOutcome::LaunchFailed(d) => !r.success && r.data is None
                && (r.error matches Some(e) && e@ == "Failed to invoke CLI: "@ + d@),
        },
{
    match o {
        InvokeOutcome::Completed { status_ok, stdout, stderr } => {
            if *status_ok {
                CommandResult::ok(stdout.clone())
            } else {
                CommandResult::err(stderr.clone())
            }
        },
        InvokeOutcome::LaunchFailed(d) => CommandResult::err(
            String::from_str("Failed to invoke CLI: ").concat(d.as_str()),
        ),
    }
}

/// Whether a streamed line is blank and is skipped rather than forwarded.
pub fn is_blank(line: &str) -> (r: bool)
    ensures
        r <==> spec_trim(line@).len() == 0,
{
    trim(line).unicode_len() == 0
}

} // verus!
