//! The command line.

use vstd::prelude::*;
use vstd::string::*;

use crate::names::{expand, expanded};
use crate::text::{same_text, texts};

verus! {

/// What the tool is asked to do.
#[derive(Clone, Copy, PartialEq, Eq, Structural)]
pub enum Cmd {
    /// Start the machine and open the editor.
    Up,
    /// Start the machine and log in to it.
    Shell,
    /// Stop the machine.
    Stop,
    /// Stop and delete the machine.
    Rm,
}

/// How the tool is used, with the names left open.
pub const USAGE: &'static str = "\
@ — run a project directory inside a @ VM and open
Zed on the host connected to it over SSH.

usage:
  @ <dir>                 start the VM (build/create as needed), open Zed
  @ shell <dir> [cmd...]  same, but ssh in instead of opening Zed
  @ stop <dir>            stop the project's VM (it deletes itself on stop)
  @ rm <dir>              stop and delete the project's VM
  @ --rebuild <dir>       rebuild the image, recreate the VM, open Zed

State:
  ~/.config/@/   dedicated ssh key + managed ssh config
  ~/.@/          mounted as ~/.% in every VM (& login)

A VM deletes itself ~15 seconds after its last ssh session ends (Zed window
closed, shell exited); reopening the project recreates it in seconds. A fresh
VM gets 2 minutes to receive its first connection.

Environment:
  CLAUDE_SANDBOX_IDLE=<seconds>  idle timeout, applied when the VM is created (0 = never reap)
  CLAUDE_SANDBOX_DEBUG=1         keep failed VMs around (skips --rm) so `container logs` works
  CLAUDE_SANDBOX_USER=<name>     account inside the VM (default: your host username)
  CLAUDE_SANDBOX_RESEED=1        overwrite the VM's & credentials from the host keychain

& Code inside the VM is seeded from the host on every run: OAuth tokens
exported from the login Keychain, plus settings.json, ^.md, agents,
commands, skills, output-styles and plugins. This is a one-way copy, never a
mount of ~/.% — transcripts stay on the host, and nothing the VM writes
can reach config the host executes.";

/// How the tool is used.
pub fn usage() -> (r: String)
    ensures
        r@ == expand(USAGE@),
{
    expanded(USAGE)
}

/// What a command line asks for.
pub enum RequestView {
    /// Nothing that could be done: the usage is shown as an error.
    Usage,
    /// The usage.
    Help,
    /// Something that makes no sense: an argument too many.
    Unexpected(Seq<char>),
    /// A command on a project's directory.
    Run { cmd: Cmd, rebuild: bool, dir: Seq<char>, ssh_args: Seq<Seq<char>> },
}

/// What a command line asks for.
pub enum Request {
    /// Nothing that could be done: the usage is shown as an error.
    Usage,
    /// The usage.
    Help,
    /// Something that makes no sense: an argument too many.
    Unexpected(String),
    /// A command on a project's directory.
    Run {
        /// The command.
        cmd: Cmd,
        /// Is the image to be rebuilt first?
        rebuild: bool,
        /// The project's directory.
        dir: String,
        /// What `ssh` is given after the host.
        ssh_args: Vec<String>,
    },
}

impl View for Request {
    type V = RequestView;

    open spec fn view(&self) -> RequestView {
        match self {
            Request::Usage => RequestView::Usage,
            Request::Help => RequestView::Help,
            Request::Unexpected(arg) => RequestView::Unexpected(arg@),
            Request::Run { cmd, rebuild, dir, ssh_args } => RequestView::Run {
                cmd: *cmd,
                rebuild: *rebuild,
                dir: dir@,
                ssh_args: texts(ssh_args@),
            },
        }
    }
}

/// What is said of an argument that makes no sense.
pub fn unexpected_message(arg: &str) -> (r: String)
    ensures
        r@ == "unexpected argument: "@ + arg@,
{
    "unexpected argument: ".to_owned().concat(arg)
}

/// The command that a word names. Any other word is a directory to start.
pub open spec fn named_command(word: Seq<char>) -> Option<Cmd> {
    if word == "shell"@ {
        Some(Cmd::Shell)
    } else if word == "stop"@ {
        Some(Cmd::Stop)
    } else if word == "rm"@ {
        Some(Cmd::Rm)
    } else {
        None
    }
}

/// Is the word one of those that ask for help?
pub open spec fn asks_help(word: Seq<char>) -> bool {
    word == "-h"@ || word == "--help"@
}

/// The first argument behind the directory that makes no sense there: every one,
/// but `--rebuild` where the machine is to be started.
pub open spec fn stray(extra: Seq<Seq<char>>, cmd: Cmd) -> Option<Seq<char>>
    decreases extra.len(),
{
    if extra.len() == 0 {
        None
    } else if extra[0] == "--rebuild"@ && cmd == Cmd::Up {
        stray(extra.skip(1), cmd)
    } else {
        Some(extra[0])
    }
}

/// What the words behind a command ask for.
pub open spec fn request_for(cmd: Cmd, rest: Seq<Seq<char>>) -> RequestView {
    let first = rest.len() > 0 && rest[0] == "--rebuild"@;
    let behind = if first {
        rest.skip(1)
    } else {
        rest
    };
    if behind.len() == 0 {
        RequestView::Usage
    } else {
        let extra = behind.skip(1);
        if cmd == Cmd::Shell {
            RequestView::Run { cmd: cmd, rebuild: first, dir: behind[0], ssh_args: extra }
        } else {
            match stray(extra, cmd) {
                Some(arg) => RequestView::Unexpected(arg),
                None => RequestView::Run {
                    cmd: cmd,
                    rebuild: first || extra.len() > 0,
                    dir: behind[0],
                    ssh_args: seq![],
                },
            }
        }
    }
}

/// What a command line, without the program's name, asks for.
pub open spec fn request(args: Seq<Seq<char>>) -> RequestView {
    if args.len() == 0 {
        RequestView::Usage
    } else if asks_help(args[0]) {
        RequestView::Help
    } else {
        match named_command(args[0]) {
            Some(cmd) => request_for(cmd, args.skip(1)),
            None => request_for(Cmd::Up, args),
        }
    }
}

/// Reads a command line, without the program's name.
pub fn parse_args(args: &Vec<String>) -> (r: Request)
    ensures
        r@ == request(texts(args@)),
{
    let ghost all = texts(args@);
    if args.len() == 0 {
        return Request::Usage;
    }
    let first = args[0].as_str();
    assert(all[0] == first@);
    if same_text(first, "-h") || same_text(first, "--help") {
        return Request::Help;
    }
    let (cmd, from): (Cmd, usize) = if same_text(first, "shell") {
        (Cmd::Shell, 1)
    } else if same_text(first, "stop") {
        (Cmd::Stop, 1)
    } else if same_text(first, "rm") {
        (Cmd::Rm, 1)
    } else {
        (Cmd::Up, 0)
    };
    let ghost rest = all.skip(from as int);
    assert(from == 0 ==> rest =~= all);
    assert(request(all) == request_for(cmd, rest));
    let mut at: usize = from;
    let mut rebuild = false;
    if at < args.len() && same_text(args[at].as_str(), "--rebuild") {
        rebuild = true;
        at += 1;
    }
    let ghost behind = if rebuild {
        rest.skip(1)
    } else {
        rest
    };
    assert(behind =~= all.skip(at as int));
    if at >= args.len() {
        return Request::Usage;
    }
    let dir = args[at].clone();
    let ghost extra = behind.skip(1);
    let ghost first_flag = rebuild;
    let mut i: usize = at + 1;
    let mut ssh_args: Vec<String> = Vec::new();
    if cmd == Cmd::Shell {
        while i < args.len()
            invariant
                at < i <= args@.len(),
                at < args@.len(),
                extra == texts(args@).skip(at + 1),
                texts(ssh_args@) == extra.take(i - at - 1),
            decreases args@.len() - i,
        {
            let ghost before = texts(ssh_args@);
            ssh_args.push(args[i].clone());
            proof {
                let k = i - at - 1;
                assert(texts(ssh_args@) =~= before.push(args@[i as int]@));
                assert(extra.take(k + 1) =~= extra.take(k).push(extra[k]));
            }
            i += 1;
        }
        assert(texts(ssh_args@) =~= extra);
    } else {
        assert(extra.skip(0) =~= extra);
        #[verifier::loop_isolation(false)]
        while i < args.len()
            invariant
                at < i <= args@.len(),
                at < args@.len(),
                extra == texts(args@).skip(at + 1),
                rebuild == (first_flag || i > at + 1),
                stray(extra.skip(i - at - 1), cmd) == stray(extra, cmd),
            decreases args@.len() - i,
        {
            let ghost left = extra.skip(i - at - 1);
            assert(left[0] == args@[i as int]@);
            if same_text(args[i].as_str(), "--rebuild") && cmd == Cmd::Up {
                rebuild = true;
            } else {
                return Request::Unexpected(args[i].clone());
            }
            assert(left.skip(1) =~= extra.skip(i - at));
            i += 1;
        }
        assert(texts(ssh_args@) =~= seq![]);
    }
    Request::Run { cmd, rebuild, dir, ssh_args }
}

/// Only `shell` hands arguments on: no other command is run with any.
pub proof fn law_only_shell_forwards(args: Seq<Seq<char>>)
    ensures
        request(args) matches RequestView::Run { cmd, ssh_args, .. } ==> cmd == Cmd::Shell
            || ssh_args.len() == 0,
{
}

/// `--rebuild` may stand before the directory or behind it.
pub proof fn law_rebuild_on_either_side(dir: Seq<char>)
    requires
        !asks_help(dir),
        named_command(dir) is None,
        dir != "--rebuild"@,
    ensures
        request(seq!["--rebuild"@, dir]) == request(seq![dir, "--rebuild"@]),
        request(seq!["--rebuild"@, dir]) == (RequestView::Run {
            cmd: Cmd::Up,
            rebuild: true,
            dir: dir,
            ssh_args: seq![],
        }),
{
    reveal_strlit("--rebuild");
    reveal_strlit("-h");
    reveal_strlit("--help");
    reveal_strlit("shell");
    reveal_strlit("stop");
    reveal_strlit("rm");
    let flag = "--rebuild"@;
    assert(flag.len() == 9);
    assert("--help"@.len() == 6);
    let before = seq![flag, dir];
    let after = seq![dir, flag];
    assert(before.skip(1) =~= seq![dir]);
    assert(before.skip(1).skip(1) =~= seq![]);
    assert(after.skip(1) =~= seq![flag]);
    assert(after.skip(1).skip(1) =~= seq![]);
    reveal_with_fuel(stray, 3);
}

/// A request says what it was made with.
pub proof fn law_requests_say_what_they_hold(
    cmd: Cmd,
    rebuild: bool,
    dir: String,
    ssh_args: Vec<String>,
)
    ensures
        Request::Usage@ == RequestView::Usage,
        Request::Help@ == RequestView::Help,
        Request::Unexpected(dir)@ == RequestView::Unexpected(dir@),
        ({
            let said = (Request::Run { cmd, rebuild, dir, ssh_args })@;
            &&& said is Run
            &&& said->cmd == cmd
            &&& said->rebuild == rebuild
            &&& said->dir == dir@
            &&& said->ssh_args.len() == ssh_args@.len()
            &&& forall|k: int|
                0 <= k < ssh_args@.len() ==> #[trigger] said->ssh_args[k] == ssh_args@[k]@
        }),
{
}

/// What a directory on the command line is: a word that asks for no help, names no command
/// and is not `--rebuild`.
pub open spec fn is_dir_word(word: Seq<char>) -> bool {
    &&& word != "-h"@
    &&& word != "--help"@
    &&& word != "shell"@
    &&& word != "stop"@
    &&& word != "rm"@
    &&& word != "--rebuild"@
}

/// The words of the command line differ.
proof fn lemma_words_differ()
    ensures
        "shell"@ != "stop"@,
        "shell"@ != "rm"@,
        "stop"@ != "rm"@,
        "-h"@ != "shell"@,
        "-h"@ != "stop"@,
        "-h"@ != "rm"@,
        "--help"@ != "shell"@,
        "--help"@ != "stop"@,
        "--help"@ != "rm"@,
        "--rebuild"@ != "-h"@,
        "--rebuild"@ != "--help"@,
        "--rebuild"@ != "shell"@,
        "--rebuild"@ != "stop"@,
        "--rebuild"@ != "rm"@,
{
    reveal_strlit("--rebuild");
    reveal_strlit("-h");
    reveal_strlit("--help");
    reveal_strlit("shell");
    reveal_strlit("stop");
    reveal_strlit("rm");
    assert("-h"@[0] == '-');
    assert("rm"@[0] == 'r');
    assert("--rebuild"@.len() == 9 && "--help"@.len() == 6);
    assert("shell"@.len() == 5 && "stop"@.len() == 4 && "rm"@.len() == 2 && "-h"@.len() == 2);
}

/// `shell` and a directory logs in to the directory's machine, and hands all words behind
/// the directory on, in order, whatever they are and even if there are none.
pub proof fn law_shell(dir: Seq<char>, words: Seq<Seq<char>>)
    requires
        dir != "--rebuild"@,
    ensures
        request(seq!["shell"@, dir] + words) == (RequestView::Run {
            cmd: Cmd::Shell,
            rebuild: false,
            dir,
            ssh_args: words,
        }),
        request(seq!["shell"@, "--rebuild"@, dir] + words) == (RequestView::Run {
            cmd: Cmd::Shell,
            rebuild: true,
            dir,
            ssh_args: words,
        }),
{
    lemma_words_differ();
    let all = seq!["shell"@, dir] + words;
    assert(all[0] == "shell"@);
    assert(all.skip(1) =~= seq![dir] + words);
    assert((seq![dir] + words)[0] == dir);
    assert((seq![dir] + words).skip(1) =~= words);
    let more = seq!["shell"@, "--rebuild"@, dir] + words;
    assert(more[0] == "shell"@);
    assert(more.skip(1) =~= seq!["--rebuild"@, dir] + words);
    assert(more.skip(1)[0] == "--rebuild"@);
    assert(more.skip(1).skip(1) =~= seq![dir] + words);
}

/// A directory alone starts its machine; `stop` and `rm` before it stop and delete it.
pub proof fn law_commands(dir: Seq<char>)
    requires
        dir != "--rebuild"@,
    ensures
        is_dir_word(dir) ==> request(seq![dir]) == (RequestView::Run {
            cmd: Cmd::Up,
            rebuild: false,
            dir,
            ssh_args: seq![],
        }),
        request(seq!["stop"@, dir]) == (RequestView::Run {
            cmd: Cmd::Stop,
            rebuild: false,
            dir,
            ssh_args: seq![],
        }),
        request(seq!["rm"@, dir]) == (RequestView::Run {
            cmd: Cmd::Rm,
            rebuild: false,
            dir,
            ssh_args: seq![],
        }),
{
    lemma_words_differ();
    assert(seq![dir].skip(1) =~= seq![]);
    assert(seq!["stop"@, dir][0] == "stop"@);
    assert(seq!["stop"@, dir].skip(1) =~= seq![dir]);
    assert(seq!["rm"@, dir][0] == "rm"@);
    assert(seq!["rm"@, dir].skip(1) =~= seq![dir]);
}

/// A word behind the directory that is not `--rebuild` makes no sense but for `shell`, and
/// is what is complained of.
pub proof fn law_stray_words(dir: Seq<char>, word: Seq<char>, words: Seq<Seq<char>>)
    requires
        dir != "--rebuild"@,
    ensures
        is_dir_word(dir) && word != "--rebuild"@ ==> request(seq![dir, word] + words)
            == RequestView::Unexpected(word),
        request(seq!["stop"@, dir, word] + words) == RequestView::Unexpected(word),
        request(seq!["rm"@, dir, word] + words) == RequestView::Unexpected(word),
{
    lemma_words_differ();
    let up = seq![dir, word] + words;
    assert(up[0] == dir);
    assert(up.skip(1) =~= seq![word] + words);
    assert(up.skip(1)[0] == word);
    let stop = seq!["stop"@, dir, word] + words;
    assert(stop[0] == "stop"@);
    assert(stop.skip(1) =~= up);
    let rm = seq!["rm"@, dir, word] + words;
    assert(rm[0] == "rm"@);
    assert(rm.skip(1) =~= up);
}

/// No words, and no directory behind a command or `--rebuild`, ask for the usage as an
/// error; `-h` and `--help` in front ask for it as help, whatever follows.
pub proof fn law_usage(words: Seq<Seq<char>>)
    ensures
        request(Seq::<Seq<char>>::empty()) is Usage,
        request(seq!["--rebuild"@]) is Usage,
        request(seq!["shell"@]) is Usage,
        request(seq!["stop"@]) is Usage,
        request(seq!["rm"@]) is Usage,
        request(seq!["-h"@] + words) is Help,
        request(seq!["--help"@] + words) is Help,
{
    lemma_words_differ();
    assert(seq!["--rebuild"@].skip(1) =~= seq![]);
    assert(seq!["shell"@].skip(1) =~= seq![]);
    assert(seq!["stop"@].skip(1) =~= seq![]);
    assert(seq!["rm"@].skip(1) =~= seq![]);
    assert((seq!["-h"@] + words)[0] == "-h"@);
    assert((seq!["--help"@] + words)[0] == "--help"@);
}

/// Behind the directory of a machine that is to be started only `--rebuild` makes sense, as
/// often as it stands there; the first other word is what is complained of.
pub proof fn law_words_behind_the_directory(dir: Seq<char>, words: Seq<Seq<char>>, k: int)
    requires
        is_dir_word(dir),
        0 <= k <= words.len(),
        forall|i: int| 0 <= i < k ==> #[trigger] words[i] == "--rebuild"@,
        k < words.len() ==> words[k] != "--rebuild"@,
    ensures
        request(seq![dir] + words) == if k < words.len() {
            RequestView::Unexpected(words[k])
        } else {
            RequestView::Run { cmd: Cmd::Up, rebuild: words.len() > 0, dir, ssh_args: seq![] }
        },
{
    lemma_words_differ();
    let all = seq![dir] + words;
    assert(all[0] == dir);
    assert(all.skip(1) =~= words);
    lemma_stray(words, k);
}

/// What is complained of is the first word that is not `--rebuild`.
proof fn lemma_stray(words: Seq<Seq<char>>, k: int)
    requires
        0 <= k <= words.len(),
        forall|i: int| 0 <= i < k ==> #[trigger] words[i] == "--rebuild"@,
        k < words.len() ==> words[k] != "--rebuild"@,
    ensures
        stray(words, Cmd::Up) == if k < words.len() {
            Some(words[k])
        } else {
            None
        },
    decreases k,
{
    if k > 0 {
        let rest = words.skip(1);
        assert(words[0] == "--rebuild"@);
        assert forall|i: int| 0 <= i < k - 1 implies #[trigger] rest[i] == "--rebuild"@ by {
            assert(rest[i] == words[i + 1]);
        }
        lemma_stray(rest, k - 1);
    }
}

/// `--rebuild` in front of the directory asks for a new image, whatever the directory is
/// called; what may follow is the same as without it.
pub proof fn law_rebuild_first(dir: Seq<char>, words: Seq<Seq<char>>, k: int)
    requires
        0 <= k <= words.len(),
        forall|i: int| 0 <= i < k ==> #[trigger] words[i] == "--rebuild"@,
        k < words.len() ==> words[k] != "--rebuild"@,
    ensures
        request(seq!["--rebuild"@, dir] + words) == if k < words.len() {
            RequestView::Unexpected(words[k])
        } else {
            RequestView::Run { cmd: Cmd::Up, rebuild: true, dir, ssh_args: seq![] }
        },
        request(seq!["shell"@, "--rebuild"@, dir] + words) == (RequestView::Run {
            cmd: Cmd::Shell,
            rebuild: true,
            dir,
            ssh_args: words,
        }),
        request(seq!["stop"@, "--rebuild"@, dir] + words) == if words.len() > 0 {
            RequestView::Unexpected(words[0])
        } else {
            RequestView::Run { cmd: Cmd::Stop, rebuild: true, dir, ssh_args: seq![] }
        },
        request(seq!["rm"@, "--rebuild"@, dir] + words) == if words.len() > 0 {
            RequestView::Unexpected(words[0])
        } else {
            RequestView::Run { cmd: Cmd::Rm, rebuild: true, dir, ssh_args: seq![] }
        },
{
    lemma_words_differ();
    let up = seq!["--rebuild"@, dir] + words;
    assert(up[0] == "--rebuild"@);
    assert(up.skip(1) =~= seq![dir] + words);
    assert(up.skip(1)[0] == dir);
    assert(up.skip(1).skip(1) =~= words);
    lemma_stray(words, k);
    let shell = seq!["shell"@, "--rebuild"@, dir] + words;
    assert(shell[0] == "shell"@);
    assert(shell.skip(1) =~= up);
    let stop = seq!["stop"@, "--rebuild"@, dir] + words;
    assert(stop[0] == "stop"@);
    assert(stop.skip(1) =~= up);
    let rm = seq!["rm"@, "--rebuild"@, dir] + words;
    assert(rm[0] == "rm"@);
    assert(rm.skip(1) =~= up);
}

} // verus!
