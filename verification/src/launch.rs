//! Bringing a project's machine up, step by step, and handing over to it.

use vstd::prelude::*;
use vstd::string::*;

use crate::args::Cmd;
use crate::names::{expand, lemma_expand_around, tool, tool_name};
use crate::process::{CommandLine, CommandView};
use crate::sandbox::{container_name, Sandbox, SandboxView};
use crate::ssh_config::{config_lines, other_blocks, own_block};
use crate::text::{ends, lines, opt_text, starts, texts};

verus! {

/// A step on the way to a machine that runs.
#[derive(Clone, Copy, PartialEq, Eq, Structural)]
pub enum UpStep {
    /// See to the runtime's services and the domain of its containers.
    Preflight,
    /// See to the ssh key.
    Key,
    /// Copy what the agent starts with.
    Seed,
    /// Build the image anew.
    Rebuild,
    /// See whether the container exists.
    Inspect,
    /// Destroy the container of the old image.
    Recreate,
    /// See to it that the container runs.
    Container,
    /// Wait for the ssh server.
    Wait,
    /// Pin the address in the ssh configuration.
    Config,
    /// Hand over to the editor or the shell.
    HandOff,
}

/// The step after a step. `rebuild` asks for a new image; `found` says, after the step
/// that looks, whether the container exists.
pub open spec fn step_following(done: UpStep, rebuild: bool, found: bool) -> Option<UpStep> {
    match done {
        UpStep::Preflight => Some(UpStep::Key),
        UpStep::Key => Some(UpStep::Seed),
        UpStep::Seed => Some(
            if rebuild {
                UpStep::Rebuild
            } else {
                UpStep::Container
            },
        ),
        UpStep::Rebuild => Some(UpStep::Inspect),
        UpStep::Inspect => Some(
            if found {
                UpStep::Recreate
            } else {
                UpStep::Container
            },
        ),
        UpStep::Recreate => Some(UpStep::Container),
        UpStep::Container => Some(UpStep::Wait),
        UpStep::Wait => Some(UpStep::Config),
        UpStep::Config => Some(UpStep::HandOff),
        UpStep::HandOff => None,
    }
}

/// Decides which step follows a step that succeeded, if any does.
pub fn up(done: UpStep, rebuild: bool, found: bool) -> (r: Option<UpStep>)
    ensures
        r == step_following(done, rebuild, found),
{
    match done {
        UpStep::Preflight => Some(UpStep::Key),
        UpStep::Key => Some(UpStep::Seed),
        UpStep::Seed => {
            if rebuild {
                Some(UpStep::Rebuild)
            } else {
                Some(UpStep::Container)
            }
        },
        UpStep::Rebuild => Some(UpStep::Inspect),
        UpStep::Inspect => {
            if found {
                Some(UpStep::Recreate)
            } else {
                Some(UpStep::Container)
            }
        },
        UpStep::Recreate => Some(UpStep::Container),
        UpStep::Container => Some(UpStep::Wait),
        UpStep::Wait => Some(UpStep::Config),
        UpStep::Config => Some(UpStep::HandOff),
        UpStep::HandOff => None,
    }
}

/// The steps in order.
pub open spec fn steps(rebuild: bool, found: bool) -> Seq<UpStep> {
    let start = seq![UpStep::Preflight, UpStep::Key, UpStep::Seed];
    let anew = if !rebuild {
        seq![]
    } else if found {
        seq![UpStep::Rebuild, UpStep::Inspect, UpStep::Recreate]
    } else {
        seq![UpStep::Rebuild, UpStep::Inspect]
    };
    let end = seq![UpStep::Container, UpStep::Wait, UpStep::Config, UpStep::HandOff];
    start + anew + end
}

/// The steps come in one order: each leads to the next in it, and the last to none. A
/// container is destroyed only after the new image was built, the address is pinned only
/// once the server answered there, and nothing is handed over before.
pub proof fn law_steps_in_order(rebuild: bool, found: bool, k: int)
    requires
        0 <= k < steps(rebuild, found).len(),
    ensures
        step_following(steps(rebuild, found)[k], rebuild, found) == if k + 1 < steps(
            rebuild,
            found,
        ).len() {
            Some(steps(rebuild, found)[k + 1])
        } else {
            None
        },
{
}

impl SandboxView {
    /// The machine's name in a domain.
    pub open spec fn host(self, domain: Seq<char>) -> Seq<char> {
        self.name + "."@ + domain
    }

    /// The command that takes over once the machine runs: ssh with the arguments that were
    /// passed on, or the editor.
    pub open spec fn hand_off_to(
        self,
        cmd: Cmd,
        host: Seq<char>,
        ssh_args: Seq<Seq<char>>,
    ) -> CommandView {
        if cmd == Cmd::Shell {
            CommandView { program: "ssh"@, args: seq![host] + ssh_args }
        } else {
            CommandView {
                program: "zed"@,
                args: seq!["ssh://"@ + self.user + "@"@ + host + self.target],
            }
        }
    }
}

impl Sandbox {
    /// The machine's name in a domain.
    pub fn host(&self, domain: &str) -> (r: String)
        ensures
            r@ == self@.host(domain@),
    {
        self.name.clone().concat(".").concat(domain)
    }

    /// What is said when a container of an old image was destroyed.
    pub fn recreating_message(&self) -> (r: String)
        ensures
            r@ == "recreating "@ + self@.name + " with the new image"@,
    {
        "recreating ".to_owned().concat(self.name.as_str()).concat(" with the new image")
    }

    /// The command that takes over once the machine runs, and what is said before.
    pub fn hand_off(&self, cmd: Cmd, host: &str, ssh_args: &Vec<String>) -> (r: (
        CommandLine,
        Option<String>,
    ))
        ensures
            r.0@ == self@.hand_off_to(cmd, host@, texts(ssh_args@)),
            opt_text(r.1) == if cmd == Cmd::Shell {
                None
            } else {
                Some("opening zed on "@ + host@ + " at "@ + self@.target)
            },
    {
        if cmd == Cmd::Shell {
            let mut args = vec![host.to_owned()];
            let ghost given = texts(ssh_args@);
            assert(texts(args@) =~= seq![host@] + given.take(0));
            let mut i: usize = 0;
            while i < ssh_args.len()
                invariant
                    given == texts(ssh_args@),
                    i <= ssh_args@.len(),
                    texts(args@) == seq![host@] + given.take(i as int),
                decreases ssh_args@.len() - i,
            {
                let ghost before = texts(args@);
                args.push(ssh_args[i].clone());
                assert(texts(args@) =~= before.push(given[i as int]));
                assert(given.take(i + 1) =~= given.take(i as int).push(given[i as int]));
                i += 1;
                assert(texts(args@) =~= seq![host@] + given.take(i as int));
            }
            assert(given.take(i as int) =~= given);
            (CommandLine { program: "ssh".to_owned(), args: args }, None)
        } else {
            let url = "ssh://".to_owned().concat(self.user.as_str()).concat("@").concat(
                host,
            ).concat(self.target.as_str());
            let args = vec![url];
            assert(texts(args@) =~= seq!["ssh://"@ + self@.user + "@"@ + host@ + self@.target]);
            let message = "opening zed on ".to_owned().concat(host).concat(" at ").concat(
                self.target.as_str(),
            );
            (CommandLine { program: "zed".to_owned(), args: args }, Some(message))
        }
    }
}

/// What is said where the program that takes over cannot be started.
pub fn hand_off_failure(program: &str, cause: &str) -> (r: String)
    ensures
        r@ == "failed to exec "@ + program@ + ": "@ + cause@,
{
    "failed to exec ".to_owned().concat(program).concat(": ").concat(cause)
}

/// The last that is said where the tool fails.
pub fn failure(message: &str) -> (r: String)
    ensures
        r@ == tool() + ": "@ + message@,
{
    tool_name().concat(": ").concat(message)
}

/// The machine is reached at the address that answered: the name that the command that
/// takes over is given is the first that the container's block in the ssh configuration is
/// for, and that block pins the address.
pub proof fn law_host_is_pinned(
    sandbox: SandboxView,
    existing: Seq<char>,
    domain: Seq<char>,
    ip: Seq<char>,
)
    ensures
        ({
            let all = config_lines(
                existing,
                sandbox.name,
                domain,
                ip,
                sandbox.user,
                sandbox.key,
            );
            let at = other_blocks(
                lines(existing),
                sandbox.name,
                lines(existing).len(),
            ).len() as int;
            &&& all[at + 1] == "Host "@ + sandbox.host(domain) + " "@ + sandbox.name
            &&& all[at + 2] == "  HostName "@ + ip
        }),
{
    let all = config_lines(existing, sandbox.name, domain, ip, sandbox.user, sandbox.key);
    let at = other_blocks(lines(existing), sandbox.name, lines(existing).len()).len() as int;
    assert(all[at + 1] == own_block(sandbox.name, domain, ip)[1]);
    assert(all[at + 2] == own_block(sandbox.name, domain, ip)[2]);
    assert(all[at + 1] =~= "Host "@ + sandbox.host(domain) + " "@ + sandbox.name);
}

/// The defaults match every machine: the patterns that they are for are the tool's name, a
/// hyphen and a star, with and without a domain, and a machine's name starts with the
/// tool's name and a hyphen, and in a domain ends in that domain.
pub proof fn law_defaults_match_the_machine(sandbox: SandboxView, domain: Seq<char>)
    requires
        sandbox.wf(),
    ensures
        starts(sandbox.name, tool() + "-"@),
        starts(sandbox.host(domain), tool() + "-"@),
        ends(sandbox.host(domain), "."@ + domain),
        expand("Host @-*."@) == "Host "@ + tool() + "-*."@,
        expand(" @-*"@) == " "@ + tool() + "-*"@,
{
    let (base, hash) = choose|base: Seq<char>, hash: Seq<char>|
        sandbox.name == #[trigger] container_name(base, hash);
    let start = tool() + "-"@;
    let host = sandbox.host(domain);
    let end = "."@ + domain;
    assert(sandbox.name.subrange(0, start.len() as int) =~= start);
    assert(host.subrange(0, start.len() as int) =~= start);
    assert(host.subrange(host.len() - end.len(), host.len() as int) =~= end);
    lemma_patterns();
}

/// What the templates of the patterns stand for.
proof fn lemma_patterns()
    ensures
        expand("Host @-*."@) == "Host "@ + tool() + "-*."@,
        expand(" @-*"@) == " "@ + tool() + "-*"@,
{
    reveal_strlit("Host @-*.");
    reveal_strlit(" @-*");
    reveal_strlit("Host ");
    reveal_strlit(" ");
    reveal_strlit("-*.");
    reveal_strlit("-*");
    lemma_expand_around("Host "@, '@', "-*."@);
    lemma_expand_around(" "@, '@', "-*"@);
    assert("Host @-*."@ =~= "Host "@ + seq!['@'] + "-*."@);
    assert(" @-*"@ =~= " "@ + seq!['@'] + "-*"@);
}

/// `shell` hands over to ssh, with the host first and then the very words that were passed
/// on, even if there are none; anything else opens the editor, at the project's place in the
/// machine, as the machine's user.
pub proof fn law_who_takes_over(
    sandbox: SandboxView,
    cmd: Cmd,
    host: Seq<char>,
    words: Seq<Seq<char>>,
)
    ensures
        ({
            let shell = sandbox.hand_off_to(Cmd::Shell, host, words);
            &&& shell.program == "ssh"@
            &&& shell.args.len() == words.len() + 1
            &&& shell.args[0] == host
            &&& shell.args.skip(1) == words
        }),
        cmd != Cmd::Shell ==> ({
            let editor = sandbox.hand_off_to(cmd, host, words);
            &&& editor.program == "zed"@
            &&& editor.args.len() == 1
            &&& editor.args[0] == "ssh://"@ + sandbox.user + "@"@ + host + sandbox.target
        }),
{
    assert((seq![host] + words).skip(1) =~= words);
}

/// A machine's name in a domain is its container's name, a dot and the domain.
pub proof fn law_host(sandbox: SandboxView, domain: Seq<char>)
    ensures
        sandbox.host(domain) == sandbox.name + "."@ + domain,
{
}

/// Which step follows which. The runtime, the key and the copies are seen to first; a new
/// image is built only where it is asked for, and then a container that exists is destroyed;
/// the container, the wait and the configuration always come, in that order, before the
/// hand-over, which is the last.
pub proof fn law_step_after_step(rebuild: bool, found: bool)
    ensures
        step_following(UpStep::Preflight, rebuild, found) == Some(UpStep::Key),
        step_following(UpStep::Key, rebuild, found) == Some(UpStep::Seed),
        step_following(UpStep::Seed, true, found) == Some(UpStep::Rebuild),
        step_following(UpStep::Seed, false, found) == Some(UpStep::Container),
        step_following(UpStep::Rebuild, rebuild, found) == Some(UpStep::Inspect),
        step_following(UpStep::Inspect, rebuild, true) == Some(UpStep::Recreate),
        step_following(UpStep::Inspect, rebuild, false) == Some(UpStep::Container),
        step_following(UpStep::Recreate, rebuild, found) == Some(UpStep::Container),
        step_following(UpStep::Container, rebuild, found) == Some(UpStep::Wait),
        step_following(UpStep::Wait, rebuild, found) == Some(UpStep::Config),
        step_following(UpStep::Config, rebuild, found) == Some(UpStep::HandOff),
        step_following(UpStep::HandOff, rebuild, found) is None,
{
}

} // verus!
