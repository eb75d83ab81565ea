//! A project's container: what state it is in, and what is done about it.

use vstd::prelude::*;
use vstd::string::*;

use crate::json::{as_str, item, json_text, key, parse, Json, JsonView};
use crate::names::{agent, expand, expanded, lemma_expand_around};
use crate::number::{is_whole_number, writes_whole_number};
use crate::process::{
    captured, commands, container, container_command, opt_command, CommandLine, Outcome,
};
use crate::sandbox::{Sandbox, SandboxView};
use crate::text::{
    any_of, contains_text, ends, has_text, head, law_pieces, law_split, lemma_find_is, opt_text,
    starts, same_text, split_once, text_before,
    texts, trim_white, trimmed, Pattern,
};

verus! {

/// The state of the first container that an inspection shows.
pub open spec fn shown_state(doc: JsonView) -> Option<Seq<char>> {
    doc.item(0).key("status"@).key("state"@).string()
}

/// The address, with its prefix length, on the first network of the first container
/// that an inspection shows.
pub open spec fn shown_cidr(doc: JsonView) -> Option<Seq<char>> {
    doc.item(0).key("status"@).key("networks"@).item(0).key("ipv4Address"@).string()
}

/// The address of the first container that an inspection shows, if it has one yet.
pub open spec fn shown_address(doc: JsonView) -> Option<Seq<char>> {
    match shown_cidr(doc) {
        Some(cidr) if head(cidr, Pattern::Is('/')).len() > 0 => Some(head(cidr, Pattern::Is('/'))),
        _ => None,
    }
}

/// The state of the first container that an inspection shows.
pub fn state_in(doc: &Json) -> (r: Option<String>)
    ensures
        opt_text(r) == shown_state(doc@),
{
    let node = key(key(item(Some(doc), 0), "status"), "state");
    match as_str(node) {
        Some(s) => Some(s.clone()),
        None => None,
    }
}

/// Does an inspection show a container at all?
pub fn shows_any(doc: &Json) -> (r: bool)
    ensures
        r == (doc@.item(0) != JsonView::Null),
{
    match item(Some(doc), 0) {
        Some(Json::Null) => false,
        Some(_) => true,
        None => false,
    }
}

/// The address of the first container that an inspection shows, if it has one yet.
pub fn address_in(doc: &Json) -> (r: Option<String>)
    ensures
        opt_text(r) == shown_address(doc@),
{
    let networks = key(key(item(Some(doc), 0), "status"), "networks");
    let node = key(item(networks, 0), "ipv4Address");
    match as_str(node) {
        Some(cidr) => {
            let ip = text_before(cidr.as_str(), Pattern::Is('/'));
            if ip.as_str().is_empty() {
                None
            } else {
                Some(ip)
            }
        },
        None => None,
    }
}

/// What is done to bring about that a project's container runs.
#[derive(Clone, Copy, PartialEq, Eq, Structural)]
pub enum ContainerAction {
    /// Nothing: the container runs.
    Reuse,
    /// Make the container not exist.
    Destroy,
    /// See whether the image is there.
    CheckImage,
    /// Build the image.
    BuildImage,
    /// Create the container.
    Create,
}

/// What was found, or done, on the way to a container that runs.
pub enum ContainerEvent {
    /// The container was inspected: its state, if it exists.
    State(Option<String>),
    /// The container was made not to exist.
    Destroyed,
    /// It was seen whether the image is there.
    Image(bool),
    /// The image was built.
    Built,
}

/// What is done next. Only a running container is reused: any other is torn down, and
/// one is created, from an image that is built where it is missing.
pub open spec fn next_action(event: ContainerEvent) -> ContainerAction {
    match event {
        ContainerEvent::State(Some(state)) => if state@ == "running"@ {
            ContainerAction::Reuse
        } else {
            ContainerAction::Destroy
        },
        ContainerEvent::State(None) | ContainerEvent::Destroyed => ContainerAction::CheckImage,
        ContainerEvent::Image(true) | ContainerEvent::Built => ContainerAction::Create,
        ContainerEvent::Image(false) => ContainerAction::BuildImage,
    }
}

/// Decides what is done next for the container to run.
pub fn ensure_container(event: &ContainerEvent) -> (r: ContainerAction)
    ensures
        r == next_action(*event),
{
    match event {
        ContainerEvent::State(state) => match state {
            Some(s) => {
                if same_text(s.as_str(), "running") {
                    ContainerAction::Reuse
                } else {
                    ContainerAction::Destroy
                }
            },
            None => ContainerAction::CheckImage,
        },
        ContainerEvent::Destroyed => ContainerAction::CheckImage,
        ContainerEvent::Image(present) => {
            if *present {
                ContainerAction::Create
            } else {
                ContainerAction::BuildImage
            }
        },
        ContainerEvent::Built => ContainerAction::Create,
    }
}

impl SandboxView {
    /// The mount of the project's directory.
    pub open spec fn project_mount(self) -> Seq<char> {
        self.abs + ":"@ + self.target
    }

    /// The mount of the agent's configuration.
    pub open spec fn config_mount(self) -> Seq<char> {
        self.claude_dir + ":/home/"@ + self.user + expand("/.%"@)
    }

    /// The command that creates the container.
    pub open spec fn run_args(self, idle: Option<Seq<char>>, debug: bool) -> Seq<Seq<char>> {
        let start = seq![
            "run"@,
            "-d"@,
            "--name"@,
            self.name,
            "--cap-add"@,
            "CAP_NET_ADMIN"@,
        ];
        let keep = if debug {
            seq![]
        } else {
            seq!["--rm"@]
        };
        let timeout = match idle {
            Some(v) => seq!["-e"@, "IDLE_TIMEOUT="@ + v],
            None => seq![],
        };
        let end = seq!["-v"@, self.project_mount(), "-v"@, self.config_mount(), self.image];
        start + keep + timeout + end
    }
}

/// What is said of an idle timeout that is no number.
pub open spec fn bad_idle_message(idle: Seq<char>) -> Seq<char> {
    "CLAUDE_SANDBOX_IDLE must be a whole number of seconds, got: "@ + idle
}

impl Sandbox {
    /// The command that inspects the container.
    pub fn inspect_command(&self) -> (r: CommandLine)
        ensures
            r@ == container(seq!["inspect"@, self@.name]),
    {
        let args = vec!["inspect".to_owned(), self.name.clone()];
        assert(texts(args@) =~= seq!["inspect"@, self@.name]);
        container_command(args)
    }

    /// The container's state by how its inspection ended: `None` where it does not exist,
    /// that is, where the inspection does not find it or shows no container. Anything else
    /// is an error, also a container whose state is not shown; none of them passes for a
    /// missing container.
    pub fn state(&self, outcome: &Outcome) -> (r: Result<Option<String>, String>)
        ensures
            match *outcome {
                Outcome::Unstarted { missing, cause } => r matches Err(message) && message@
                    == "failed to run container inspect: "@ + cause@,
                Outcome::Finished { success, stdout, stderr } => if success {
                    match (json_text(stdout@), r) {
                        (Ok(doc), Ok(state)) => opt_text(state) == shown_state(doc) && (state
                            is None ==> doc.item(0) == JsonView::Null),
                        (Ok(doc), Err(message)) => {
                            &&& shown_state(doc) is None
                            &&& doc.item(0) != JsonView::Null
                            &&& message@ == "container inspect "@ + self@.name
                                + " shows no state"@
                        },
                        (Err(why), Err(message)) => message@ == why,
                        (Err(_), Ok(_)) => false,
                    }
                } else if has_text(stderr@, "not found"@) {
                    r matches Ok(state) && state is None
                } else {
                    r matches Err(message) && message@ == "container inspect "@ + self@.name
                        + " failed: "@ + trimmed(stderr@)
                },
            },
    {
        match outcome {
            Outcome::Unstarted { missing, cause } => Err(
                "failed to run container inspect: ".to_owned().concat(cause.as_str()),
            ),
            Outcome::Finished { success, stdout, stderr } => {
                if *success {
                    match parse(stdout.as_str()) {
                        Ok(doc) => {
                            let state = state_in(&doc);
                            if state.is_none() && shows_any(&doc) {
                                Err(
                                    "container inspect ".to_owned().concat(
                                        self.name.as_str(),
                                    ).concat(" shows no state"),
                                )
                            } else {
                                Ok(state)
                            }
                        },
                        Err(message) => Err(message),
                    }
                } else if contains_text(stderr.as_str(), "not found") {
                    Ok(None)
                } else {
                    Err(
                        "container inspect ".to_owned().concat(self.name.as_str()).concat(
                            " failed: ",
                        ).concat(trim_white(stderr.as_str()).as_str()),
                    )
                }
            },
        }
    }

    /// The address that the inspection of the container shows, if the runtime has assigned
    /// one.
    pub fn current_ip(&self, outcome: &Outcome) -> (r: Result<Option<String>, String>)
        ensures
            match captured(container(seq!["inspect"@, self@.name]), *outcome) {
                Ok(out) => match (json_text(out), r) {
                    (Ok(doc), Ok(ip)) => opt_text(ip) == shown_address(doc),
                    (Err(why), Err(message)) => message@ == why,
                    _ => false,
                },
                Err(why) => r matches Err(message) && message@ == why,
            },
    {
        match self.inspect_command().capture(outcome) {
            Ok(out) => match parse(out.as_str()) {
                Ok(doc) => Ok(address_in(&doc)),
                Err(message) => Err(message),
            },
            Err(message) => Err(message),
        }
    }

    /// The command that stops the container.
    pub fn stop_command(&self) -> (r: CommandLine)
        ensures
            r@ == container(seq!["stop"@, self@.name]),
    {
        let args = vec!["stop".to_owned(), self.name.clone()];
        assert(texts(args@) =~= seq!["stop"@, self@.name]);
        container_command(args)
    }

    /// The commands that make the container not exist, to be run one after the other
    /// whether or not they succeed: a container that deletes itself on stop leaves the
    /// second with nothing to do.
    pub fn destroy(&self) -> (r: Vec<CommandLine>)
        ensures
            commands(r@) == seq![
                container(seq!["stop"@, self@.name]),
                container(seq!["rm"@, self@.name]),
            ],
    {
        let args = vec!["rm".to_owned(), self.name.clone()];
        assert(texts(args@) =~= seq!["rm"@, self@.name]);
        let r = vec![self.stop_command(), container_command(args)];
        assert(commands(r@) =~= seq![
            container(seq!["stop"@, self@.name]),
            container(seq!["rm"@, self@.name]),
        ]);
        r
    }

    /// The command that looks for the project's image.
    pub fn image_command(&self) -> (r: CommandLine)
        ensures
            r@ == container(seq!["image"@, "inspect"@, self@.image]),
    {
        let args = vec!["image".to_owned(), "inspect".to_owned(), self.image.clone()];
        assert(texts(args@) =~= seq!["image"@, "inspect"@, self@.image]);
        container_command(args)
    }

    /// Is the project's image there, by how the command that looks for it ended?
    pub fn have_image(&self, outcome: &Outcome) -> (r: bool)
        ensures
            r == captured(
                container(seq!["image"@, "inspect"@, self@.image]),
                *outcome,
            ) is Ok,
    {
        self.image_command().capture(outcome).is_ok()
    }

    /// What stopping the machine takes: the command to run, where the container exists,
    /// and what is said once it succeeded, or where there was nothing to run.
    pub fn stop(&self, state: &Option<String>) -> (r: (Option<CommandLine>, String))
        ensures
            match *state {
                Some(_) => {
                    &&& opt_command(r.0) == Some(container(seq!["stop"@, self@.name]))
                    &&& r.1@ == "stopped "@ + self@.name
                        + " (it deletes itself; reopen the project to recreate)"@
                },
                None => {
                    &&& r.0 is None
                    &&& r.1@ == self@.name + " does not exist (idle VMs delete themselves)"@
                },
            },
    {
        match state {
            Some(_) => (
                Some(self.stop_command()),
                "stopped ".to_owned().concat(self.name.as_str()).concat(
                    " (it deletes itself; reopen the project to recreate)",
                ),
            ),
            None => (
                None,
                self.name.clone().concat(" does not exist (idle VMs delete themselves)"),
            ),
        }
    }

    /// What deleting the machine takes: the commands to run whatever comes of them, and
    /// what is said at the end. The container's block in the ssh configuration goes too.
    pub fn remove(&self, state: &Option<String>) -> (r: (Vec<CommandLine>, String))
        ensures
            commands(r.0@) == seq![
                container(seq!["stop"@, self@.name]),
                container(seq!["rm"@, self@.name]),
            ],
            r.1@ == match *state {
                Some(_) => "deleted "@ + self@.name,
                None => "nothing to delete: "@ + self@.name + " does not exist"@,
            },
    {
        let message = match state {
            Some(_) => "deleted ".to_owned().concat(self.name.as_str()),
            None => "nothing to delete: ".to_owned().concat(self.name.as_str()).concat(
                " does not exist",
            ),
        };
        (self.destroy(), message)
    }

    /// The command that creates the container: it deletes itself when it stops, unless
    /// failed machines are to be kept, and it is given the idle timeout that is asked for,
    /// if that is a number.
    pub fn run_command(&self, idle: &Option<String>, debug: bool) -> (r: Result<
        CommandLine,
        String,
    >)
        ensures
            match r {
                Ok(command) => {
                    &&& *idle matches Some(v) ==> is_whole_number(v@)
                    &&& command@ == container(self@.run_args(opt_text(*idle), debug))
                },
                Err(message) => *idle matches Some(v) && !is_whole_number(v@) && message@
                    == bad_idle_message(v@),
            },
    {
        let mut args = vec![
            "run".to_owned(),
            "-d".to_owned(),
            "--name".to_owned(),
            self.name.clone(),
            "--cap-add".to_owned(),
            "CAP_NET_ADMIN".to_owned(),
        ];
        if !debug {
            args.push("--rm".to_owned());
        }
        if let Some(v) = idle {
            if !writes_whole_number(v.as_str()) {
                return Err(
                    "CLAUDE_SANDBOX_IDLE must be a whole number of seconds, got: ".to_owned().concat(
                    v.as_str()),
                );
            }
            args.push("-e".to_owned());
            args.push("IDLE_TIMEOUT=".to_owned().concat(v.as_str()));
        }
        args.push("-v".to_owned());
        args.push(self.abs.clone().concat(":").concat(self.target.as_str()));
        args.push("-v".to_owned());
        args.push(
            self.claude_dir.clone().concat(":/home/").concat(self.user.as_str()).concat(
                expanded("/.%").as_str(),
            ),
        );
        args.push(self.image.clone());
        assert(texts(args@) =~= self@.run_args(opt_text(*idle), debug));
        Ok(container_command(args))
    }

    /// What is said once the container was created.
    pub fn created_message(&self) -> (r: String)
        ensures
            r@ == "created "@ + self@.name + " ("@ + self@.abs + " -> "@ + self@.target + ")"@,
    {
        "created ".to_owned().concat(self.name.as_str()).concat(" (").concat(
            self.abs.as_str(),
        ).concat(" -> ").concat(self.target.as_str()).concat(")")
    }
}

/// A container is created unless one runs: whatever the state of the container and
/// whether or not the image is there, the actions end with the creation of a container
/// exactly if none is running, and one that exists without running is destroyed first.
pub proof fn law_created_unless_running(state: Option<String>, image: bool)
    ensures
        ({
            let running = state matches Some(s) && s@ == "running"@;
            let first = next_action(ContainerEvent::State(state));
            let seen = next_action(ContainerEvent::Image(image));
            &&& first == ContainerAction::Reuse <==> running
            &&& first == ContainerAction::Destroy <==> state is Some && !running
            &&& first == ContainerAction::CheckImage <==> state is None
            &&& next_action(ContainerEvent::Destroyed) == ContainerAction::CheckImage
            &&& seen == ContainerAction::BuildImage <==> !image
            &&& seen == ContainerAction::Create <==> image
            &&& next_action(ContainerEvent::Built) == ContainerAction::Create
        }),
{
}

/// The mount says what it should: read up to its first colon, it names the project's
/// directory, and behind that colon it names the place inside the machine.
pub proof fn law_mount_is_unambiguous(sandbox: SandboxView)
    requires
        sandbox.wf(),
    ensures
        split_once(sandbox.project_mount(), Pattern::Is(':')) == Some(
            (sandbox.abs, sandbox.target),
        ),
{
    reveal_strlit(":");
    let mount = sandbox.project_mount();
    let n = sandbox.abs.len() as int;
    assert forall|k: int| 0 <= k < n implies !Pattern::Is(':').covers(#[trigger] mount[k]) by {
        assert(mount[k] == sandbox.abs[k]);
    }
    lemma_find_is(mount, Pattern::Is(':'), n);
    assert(mount.take(n) =~= sandbox.abs);
    assert(mount.skip(n + 1) =~= sandbox.target);
}

/// Only two directories of the host are mounted: whatever follows `-v` in the command
/// that creates the container is the project's mount or that of the agent's
/// configuration.
pub proof fn law_only_two_mounts(
    sandbox: SandboxView,
    idle: Option<Seq<char>>,
    debug: bool,
    k: int,
)
    requires
        sandbox.wf(),
        0 <= k < sandbox.run_args(idle, debug).len() - 1,
        sandbox.run_args(idle, debug)[k] == "-v"@,
    ensures
        ({
            let mount = sandbox.run_args(idle, debug)[k + 1];
            mount == sandbox.project_mount() || mount == sandbox.config_mount()
        }),
{
    reveal_strlit("-v");
    reveal_strlit("run");
    reveal_strlit("-d");
    reveal_strlit("--name");
    reveal_strlit("--cap-add");
    reveal_strlit("CAP_NET_ADMIN");
    reveal_strlit("--rm");
    reveal_strlit("-e");
    reveal_strlit("IDLE_TIMEOUT=");
    reveal_strlit(":");
    reveal_strlit(":/home/");
    let v = "-v"@;
    assert(v[1] == 'v');
    assert("-d"@[1] == 'd');
    assert("-e"@[1] == 'e');
    if let Some(t) = idle {
        assert(("IDLE_TIMEOUT="@ + t).len() >= 13);
    }
    assert(sandbox.project_mount()[sandbox.abs.len() as int] == ':');
    assert(sandbox.config_mount()[sandbox.claude_dir.len() as int] == ':');
}

/// The state that an inspection shows is the text under `state` under `status` of the first
/// container, whatever else it shows.
pub proof fn law_shown_state(
    items: Seq<JsonView>,
    first: Map<Seq<char>, JsonView>,
    status: Map<Seq<char>, JsonView>,
    state: Seq<char>,
)
    requires
        items.len() > 0,
        items[0] == JsonView::Object(first),
    ensures
        first.contains_key("status"@) && first["status"@] == JsonView::Object(status) ==> {
            &&& status.contains_key("state"@) && status["state"@] == JsonView::Text(state)
                ==> shown_state(JsonView::Array(items)) == Some(state)
            &&& !status.contains_key("state"@) ==> shown_state(JsonView::Array(items)) is None
        },
        !first.contains_key("status"@) ==> shown_state(JsonView::Array(items)) is None,
{
}

/// The address that an inspection shows is what stands before the slash in the address of
/// the first network of the first container, whatever else it shows; there is none where
/// nothing stands before the slash.
pub proof fn law_shown_address(
    items: Seq<JsonView>,
    first: Map<Seq<char>, JsonView>,
    status: Map<Seq<char>, JsonView>,
    networks: Seq<JsonView>,
    network: Map<Seq<char>, JsonView>,
    ip: Seq<char>,
    rest: Seq<char>,
)
    requires
        items.len() > 0,
        items[0] == JsonView::Object(first),
        first.contains_key("status"@),
        first["status"@] == JsonView::Object(status),
        status.contains_key("networks"@),
        status["networks"@] == JsonView::Array(networks),
        !any_of(ip, Pattern::Is('/')),
    ensures
        networks.len() > 0 && networks[0] == JsonView::Object(network) && network.contains_key(
            "ipv4Address"@,
        ) ==> {
            &&& network["ipv4Address"@] == JsonView::Text(ip + seq!['/'] + rest) && ip.len() > 0
                ==> shown_address(JsonView::Array(items)) == Some(ip)
            &&& network["ipv4Address"@] == JsonView::Text(ip) && ip.len() > 0 ==> shown_address(
                JsonView::Array(items),
            ) == Some(ip)
            &&& network["ipv4Address"@] == JsonView::Text(seq!['/'] + rest) ==> shown_address(
                JsonView::Array(items),
            ) is None
            &&& !(network["ipv4Address"@] is Text) ==> shown_address(JsonView::Array(items))
                is None
        },
        networks.len() == 0 ==> shown_address(JsonView::Array(items)) is None,
{
    law_split(ip, '/', rest, Pattern::Is('/'));
    let none: Seq<char> = seq![];
    law_split(none, '/', rest, Pattern::Is('/'));
    assert(none + seq!['/'] + rest =~= seq!['/'] + rest);
}

/// What is done at each point on the way to a container that runs.
pub proof fn law_container_actions(state: String)
    ensures
        next_action(ContainerEvent::State(Some(state))) == if state@ == "running"@ {
            ContainerAction::Reuse
        } else {
            ContainerAction::Destroy
        },
        next_action(ContainerEvent::State(None)) == ContainerAction::CheckImage,
        next_action(ContainerEvent::Destroyed) == ContainerAction::CheckImage,
        next_action(ContainerEvent::Image(false)) == ContainerAction::BuildImage,
        next_action(ContainerEvent::Image(true)) == ContainerAction::Create,
        next_action(ContainerEvent::Built) == ContainerAction::Create,
{
}

/// How a container is created: detached, under the project's name, with the one capability
/// that its firewall needs, with the project and the agent's configuration mounted, and from
/// the project's image. It deletes itself on stop unless failed machines are kept, and is
/// given the very timeout that is asked for.
pub proof fn law_how_a_container_is_created(
    sandbox: SandboxView,
    idle: Option<Seq<char>>,
    debug: bool,
)
    ensures
        ({
            let args = sandbox.run_args(idle, debug);
            let n = args.len() as int;
            let rm: int = if debug {
                0
            } else {
                1
            };
            let e: int = if idle is Some {
                2
            } else {
                0
            };
            &&& n == 11 + rm + e
            &&& args[0] == "run"@
            &&& args[1] == "-d"@
            &&& args[2] == "--name"@
            &&& args[3] == sandbox.name
            &&& args[4] == "--cap-add"@
            &&& args[5] == "CAP_NET_ADMIN"@
            &&& !debug ==> args[6] == "--rm"@
            &&& idle matches Some(seconds) ==> args[6 + rm] == "-e"@ && args[7 + rm]
                == "IDLE_TIMEOUT="@ + seconds
            &&& args[n - 5] == "-v"@
            &&& args[n - 4] == sandbox.abs + ":"@ + sandbox.target
            &&& args[n - 3] == "-v"@
            &&& args[n - 2] == sandbox.claude_dir + ":/home/"@ + sandbox.user + "/."@ + agent()
            &&& args[n - 1] == sandbox.image
        }),
{
    reveal_strlit("/.%");
    reveal_strlit("/.");
    lemma_expand_around("/."@, '%', seq![]);
    assert("/.%"@ =~= "/."@ + seq!['%'] + seq![]);
    assert("/."@ + agent() + seq![] =~= "/."@ + agent());
    assert(sandbox.config_mount() =~= sandbox.claude_dir + ":/home/"@ + sandbox.user + "/."@
        + agent());
}

/// What is said of an idle timeout that is no number ends with what was given.
pub proof fn law_bad_idle_is_shown(idle: Seq<char>)
    ensures
        ends(bad_idle_message(idle), idle),
        starts(bad_idle_message(idle), "CLAUDE_SANDBOX_IDLE must be a whole number of seconds"@),
{
    let start = "CLAUDE_SANDBOX_IDLE must be a whole number of seconds, got: "@;
    let prefix = "CLAUDE_SANDBOX_IDLE must be a whole number of seconds"@;
    law_pieces(start, idle, seq![]);
    reveal_strlit("CLAUDE_SANDBOX_IDLE must be a whole number of seconds, got: ");
    reveal_strlit("CLAUDE_SANDBOX_IDLE must be a whole number of seconds");
    assert(bad_idle_message(idle).subrange(0, prefix.len() as int) =~= prefix);
}

} // verus!
