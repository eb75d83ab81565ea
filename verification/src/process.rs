//! Commands to be run, and what is made of how they ended.

use vstd::prelude::*;
use vstd::string::*;

use crate::text::{
    ends, has_text, join_texts, joined, lemma_five_pieces, starts, texts, trim_white, trimmed,
};

verus! {

/// What a [`CommandLine`] says.
pub struct CommandView {
    pub program: Seq<char>,
    pub args: Seq<Seq<char>>,
}

/// A program and its arguments.
pub struct CommandLine {
    pub program: String,
    pub args: Vec<String>,
}

impl View for CommandLine {
    type V = CommandView;

    open spec fn view(&self) -> CommandView {
        CommandView { program: self.program@, args: texts(self.args@) }
    }
}

/// What the commands of a list say.
pub open spec fn commands(list: Seq<CommandLine>) -> Seq<CommandView> {
    Seq::new(list.len(), |i: int| list[i]@)
}

/// What an optional command says.
pub open spec fn opt_command(c: Option<CommandLine>) -> Option<CommandView> {
    match c {
        Some(c) => Some(c@),
        None => None,
    }
}

/// A command of the container runtime.
pub open spec fn container(args: Seq<Seq<char>>) -> CommandView {
    CommandView { program: "container"@, args: args }
}

/// A command of the container runtime.
pub fn container_command(args: Vec<String>) -> (r: CommandLine)
    ensures
        r@ == container(texts(args@)),
{
    CommandLine { program: "container".to_owned(), args: args }
}

/// How a command ended.
pub enum Outcome {
    /// It could not be started.
    Unstarted {
        /// Is that because there is no such program?
        missing: bool,
        /// Why not.
        cause: String,
    },
    /// It ran to its end.
    Finished {
        /// Did it say that it succeeded?
        success: bool,
        /// What it wrote.
        stdout: String,
        /// What it complained of.
        stderr: String,
    },
}

impl Outcome {
    /// Did the command run and succeed?
    pub open spec fn ok(self) -> bool {
        self matches Outcome::Finished { success, .. } && success
    }

    /// Did the command run and succeed?
    pub fn succeeded(&self) -> (r: bool)
        ensures
            r == self.ok(),
    {
        match self {
            Outcome::Finished { success, .. } => *success,
            Outcome::Unstarted { .. } => false,
        }
    }
}

impl Outcome {
    /// What the command wrote; nothing where it did not succeed.
    pub open spec fn output(self) -> Seq<char> {
        match self {
            Outcome::Finished { success: true, stdout, .. } => stdout@,
            _ => seq![],
        }
    }

    /// What the command wrote; nothing where it did not succeed.
    pub fn written(&self) -> (r: String)
        ensures
            r@ == self.output(),
    {
        match self {
            Outcome::Finished { success, stdout, .. } => {
                if *success {
                    stdout.clone()
                } else {
                    String::new()
                }
            },
            Outcome::Unstarted { .. } => String::new(),
        }
    }
}

/// Why a command could not be started, in words.
pub open spec fn unstarted_message(program: Seq<char>, cause: Seq<char>) -> Seq<char> {
    "failed to run "@ + program + ": "@ + cause
}

/// Why a command could not be started, in words.
fn unstarted(program: &str, cause: &str) -> (r: String)
    ensures
        r@ == unstarted_message(program@, cause@),
{
    "failed to run ".to_owned().concat(program).concat(": ").concat(cause)
}

/// What a command wrote, or why it failed, in words: with what it complained of.
pub open spec fn captured(command: CommandView, outcome: Outcome) -> Result<Seq<char>, Seq<char>> {
    match outcome {
        Outcome::Unstarted { missing, cause } => Err(unstarted_message(command.program, cause@)),
        Outcome::Finished { success, stdout, stderr } => if success {
            Ok(stdout@)
        } else {
            Err(
                command.program + " "@ + joined(command.args, " "@) + " failed: "@ + trimmed(
                    stderr@,
                ),
            )
        },
    }
}

/// What a text or an error holds.
pub open spec fn text_result(r: Result<String, String>) -> Result<Seq<char>, Seq<char>> {
    match r {
        Ok(text) => Ok(text@),
        Err(message) => Err(message@),
    }
}

impl CommandLine {
    /// What the command wrote, or why it failed, with what it complained of.
    pub fn capture(&self, outcome: &Outcome) -> (r: Result<String, String>)
        ensures
            text_result(r) == captured(self@, *outcome),
    {
        match outcome {
            Outcome::Unstarted { missing, cause } => Err(
                unstarted(self.program.as_str(), cause.as_str()),
            ),
            Outcome::Finished { success, stdout, stderr } => {
                if *success {
                    Ok(stdout.clone())
                } else {
                    Err(
                        self.program.clone().concat(" ").concat(
                            join_texts(&self.args, " ").as_str(),
                        ).concat(" failed: ").concat(trim_white(stderr.as_str()).as_str()),
                    )
                }
            },
        }
    }

    /// Whether the command, whose output went by, succeeded, or why not.
    pub fn passthrough(&self, outcome: &Outcome) -> (r: Result<(), String>)
        ensures
            match (*outcome, r) {
                (Outcome::Finished { success, .. }, Ok(_)) => success,
                (Outcome::Finished { success, .. }, Err(message)) => !success && message@
                    == self@.program + " "@ + joined(self@.args, " "@) + " failed"@,
                (Outcome::Unstarted { missing, cause }, Err(message)) => message@
                    == unstarted_message(self@.program, cause@),
                (Outcome::Unstarted { .. }, Ok(_)) => false,
            },
    {
        match outcome {
            Outcome::Unstarted { missing, cause } => Err(
                unstarted(self.program.as_str(), cause.as_str()),
            ),
            Outcome::Finished { success, .. } => {
                if *success {
                    Ok(())
                } else {
                    Err(
                        self.program.clone().concat(" ").concat(
                            join_texts(&self.args, " ").as_str(),
                        ).concat(" failed"),
                    )
                }
            },
        }
    }
}

/// A command that succeeded gives what it wrote, all of it; one that failed, or was not
/// started, gives an error.
pub proof fn law_capture(command: CommandView, success: bool, stdout: String, stderr: String)
    ensures
        ({
            let outcome = Outcome::Finished { success, stdout, stderr };
            &&& outcome.ok() <==> success
            &&& outcome.output() == if success {
                stdout@
            } else {
                seq![]
            }
            &&& success ==> captured(command, outcome) == Ok::<Seq<char>, Seq<char>>(stdout@)
            &&& !success ==> captured(command, outcome) is Err
        }),
{
}

/// The error of a command that failed starts with the command's program, holds all its
/// arguments, and ends with what the command complained of.
pub proof fn law_failure_says_why(command: CommandView, stdout: String, stderr: String)
    ensures
        ({
            let outcome = Outcome::Finished { success: false, stdout, stderr };
            let message = captured(command, outcome)->Err_0;
            &&& captured(command, outcome) is Err
            &&& starts(message, command.program)
            &&& has_text(message, joined(command.args, " "@))
            &&& ends(message, trimmed(stderr@))
        }),
{
    let args = joined(command.args, " "@);
    let tail = trimmed(stderr@);
    lemma_five_pieces(command.program, " "@, args, " failed: "@, tail);
}

/// A command that was not started gives an error, which names its program and ends with the
/// reason.
pub proof fn law_unstarted_says_why(command: CommandView, missing: bool, cause: String)
    ensures
        ({
            let outcome = Outcome::Unstarted { missing, cause };
            let message = captured(command, outcome)->Err_0;
            &&& !outcome.ok()
            &&& outcome.output().len() == 0
            &&& captured(command, outcome) is Err
            &&& has_text(message, command.program)
            &&& ends(message, cause@)
        }),
{
    let program = command.program;
    lemma_five_pieces(seq![], "failed to run "@, program, ": "@, cause@);
    assert(seq![] + "failed to run "@ =~= "failed to run "@);
}

/// A command of the runtime runs the runtime's program with the very arguments.
pub proof fn law_runtime_command(args: Seq<Seq<char>>)
    ensures
        container(args).program == "container"@,
        container(args).args == args,
{
}

/// Commands and results say what they were made with.
pub proof fn law_commands_say_what_they_hold(
    command: CommandLine,
    list: Seq<CommandLine>,
    i: int,
    text: String,
)
    ensures
        command@.program == command.program@,
        command@.args == texts(command.args@),
        commands(list).len() == list.len(),
        0 <= i < list.len() ==> commands(list)[i] == list[i]@,
        opt_command(Some(command)) == Some(command@),
        opt_command(None) is None,
        text_result(Ok(text)) == Ok::<Seq<char>, Seq<char>>(text@),
        text_result(Err(text)) == Err::<Seq<char>, Seq<char>>(text@),
{
}

} // verus!
