//! The container runtime: is it there, and does it run?

use vstd::prelude::*;
use vstd::string::*;

use crate::names::{tool, tool_name};
use crate::process::{container, container_command, CommandLine, Outcome};
use crate::text::{ends, law_pieces, texts, trim_white, trimmed};

verus! {

/// What is said where the runtime is not installed.
pub const NOT_INSTALLED: &'static str = "the Apple `container` CLI is not installed (or not on PATH).\n  install it with:  brew install container\n  or grab a release from https://github.com/apple/container";

/// What is said where the runtime's services cannot be started.
pub const NOT_STARTED: &'static str = "container services are not running and could not be started.\n  try:    container system start\n  then:   container system logs";

/// What is said before the runtime's services are started.
pub const STARTING: &'static str = "container services are not running - starting them ...";

/// Why the runtime could not be run, in words.
pub open spec fn unrunnable_message(missing: bool, cause: Seq<char>) -> Seq<char> {
    if missing {
        NOT_INSTALLED@
    } else {
        "failed to run `container`: "@ + cause
    }
}

/// Why the runtime could not be run, in words.
fn unrunnable(missing: bool, cause: &str) -> (r: String)
    ensures
        r@ == unrunnable_message(missing, cause@),
{
    if missing {
        NOT_INSTALLED.to_owned()
    } else {
        "failed to run `container`: ".to_owned().concat(cause)
    }
}

/// The command that shows whether the runtime is installed.
pub fn version_command() -> (r: CommandLine)
    ensures
        r@ == container(seq!["--version"@]),
{
    let args = vec!["--version".to_owned()];
    assert(texts(args@) =~= seq!["--version"@]);
    container_command(args)
}

/// Judges by how the version command ended whether the runtime is installed.
pub fn require_cli(outcome: &Outcome) -> (r: Result<(), String>)
    ensures
        r is Ok <==> outcome.ok(),
        r matches Err(message) ==> match *outcome {
            Outcome::Unstarted { missing, cause } => message@ == unrunnable_message(
                missing,
                cause@,
            ),
            Outcome::Finished { success, stdout, stderr } => message@
                == "`container --version` failed: "@ + trimmed(stderr@)
                + "\n  the Apple `container` CLI looks broken; reinstall with: brew install container"@,
        },
{
    match outcome {
        Outcome::Unstarted { missing, cause } => Err(unrunnable(*missing, cause.as_str())),
        Outcome::Finished { success, stdout, stderr } => {
            if *success {
                Ok(())
            } else {
                Err(
                    "`container --version` failed: ".to_owned().concat(
                        trim_white(stderr.as_str()).as_str(),
                    ).concat(
                        "\n  the Apple `container` CLI looks broken; reinstall with: brew install container",
                    ),
                )
            }
        },
    }
}

/// The command that was run last to see to the runtime's services.
#[derive(Clone, Copy, PartialEq, Eq, Structural)]
pub enum ServicesPhase {
    /// Do they run?
    Status,
    /// Start them.
    Start,
    /// Do they run now?
    Recheck,
}

impl ServicesPhase {
    /// The command of the phase.
    pub open spec fn command(self) -> Seq<Seq<char>> {
        match self {
            ServicesPhase::Start => seq!["system"@, "start"@],
            _ => seq!["system"@, "status"@],
        }
    }

    /// The command of the phase.
    pub fn command_line(self) -> (r: CommandLine)
        ensures
            r@ == container(self.command()),
    {
        let word = match self {
            ServicesPhase::Start => "start",
            ServicesPhase::Status | ServicesPhase::Recheck => "status",
        };
        let args = vec!["system".to_owned(), word.to_owned()];
        assert(texts(args@) =~= self.command());
        container_command(args)
    }
}

/// What comes next to have the runtime's services run.
pub enum ServicesAction {
    /// They run.
    Ready,
    /// Run the command of that phase.
    Run(ServicesPhase),
    /// They do not, and this is why.
    Fail(String),
}

/// Decides by how the last command ended what comes next. The services are started at
/// most once, and count as running only if a status call says so.
pub fn ensure_services(phase: ServicesPhase, outcome: &Outcome) -> (r: ServicesAction)
    ensures
        match r {
            ServicesAction::Ready => outcome.ok() && phase != ServicesPhase::Start,
            ServicesAction::Run(next) => match phase {
                ServicesPhase::Status => next == ServicesPhase::Start && !outcome.ok()
                    && outcome is Finished,
                ServicesPhase::Start => next == ServicesPhase::Recheck && outcome.ok(),
                ServicesPhase::Recheck => false,
            },
            ServicesAction::Fail(message) => !outcome.ok() && match phase {
                ServicesPhase::Status => *outcome matches Outcome::Unstarted { missing, cause }
                    && message@ == unrunnable_message(missing, cause@),
                _ => message@ == NOT_STARTED@,
            },
        },
{
    match phase {
        ServicesPhase::Status => match outcome {
            Outcome::Unstarted { missing, cause } => ServicesAction::Fail(
                unrunnable(*missing, cause.as_str()),
            ),
            Outcome::Finished { success, .. } => {
                if *success {
                    ServicesAction::Ready
                } else {
                    ServicesAction::Run(ServicesPhase::Start)
                }
            },
        },
        ServicesPhase::Start => {
            if outcome.succeeded() {
                ServicesAction::Run(ServicesPhase::Recheck)
            } else {
                ServicesAction::Fail(NOT_STARTED.to_owned())
            }
        },
        ServicesPhase::Recheck => {
            if outcome.succeeded() {
                ServicesAction::Ready
            } else {
                ServicesAction::Fail(NOT_STARTED.to_owned())
            }
        },
    }
}

/// A warning as it is shown.
pub open spec fn warning_text(message: Seq<char>) -> Seq<char> {
    tool() + ": warning: "@ + message
}

/// A warning as it is shown.
pub fn warning(message: &str) -> (r: String)
    ensures
        r@ == warning_text(message@),
{
    tool_name().concat(": warning: ").concat(message)
}

/// Which command each phase runs.
pub proof fn law_phases()
    ensures
        ServicesPhase::Status.command() == seq!["system"@, "status"@],
        ServicesPhase::Start.command() == seq!["system"@, "start"@],
        ServicesPhase::Recheck.command() == seq!["system"@, "status"@],
{
}

/// Where the runtime cannot be run, a missing program is said to be one, and any other reason
/// is shown.
pub proof fn law_why_the_runtime_cannot_be_run(cause: Seq<char>)
    ensures
        unrunnable_message(true, cause) == NOT_INSTALLED@,
        ends(unrunnable_message(false, cause), cause),
{
    law_pieces("failed to run `container`: "@, cause, seq![]);
}

/// A warning is the tool's name, the word and the message.
pub proof fn law_warnings(message: Seq<char>)
    ensures
        warning_text(message) == tool() + ": warning: "@ + message,
{
}

} // verus!
