//! Waiting for the machine's ssh server.
//!
//! The wait asks for one thing at a time: look at the container, connect, ask inside
//! the machine, resolve its name, sleep. Each answer is an event, and decides what is
//! asked for next.

use vstd::prelude::*;
use vstd::string::*;

use crate::number::{decimal, decimal_text};
use crate::process::{captured, container, container_command, CommandLine, Outcome};
use crate::sandbox::Sandbox;
use crate::services::{warning, warning_text};
use crate::text::{
    ends, has_text, law_pieces, lemma_five_pieces, opt_text, same_text, starts, texts,
};

verus! {

/// How often the machine is tried.
pub const ATTEMPTS: u32 = 60;

/// After how many attempts the machine's name is resolved too.
pub const DNS_AFTER: u32 = 5;

/// How many connections in a row must find no route for the route to count as barred.
pub const BARRED_AFTER: u32 = 15;

/// Why a connection failed, as far as it matters.
#[derive(Clone, Copy, PartialEq, Eq, Structural)]
pub enum Refusal {
    /// There is no route to the host.
    HostUnreachable,
    /// There is no route to its network.
    NetworkUnreachable,
    /// The system does not permit the connection.
    PermissionDenied,
    /// Anything else.
    Other,
}

impl Refusal {
    /// Was there no route?
    pub open spec fn unreachable(self) -> bool {
        self == Refusal::HostUnreachable || self == Refusal::NetworkUnreachable
    }
}

/// How many of the last refusals, without a break, were for want of a route.
pub open spec fn run_length(history: Seq<Refusal>) -> nat
    decreases history.len(),
{
    if history.len() > 0 && history.last().unreachable() {
        run_length(history.drop_last()) + 1
    } else {
        0
    }
}

/// What a [`Found`] says.
pub struct FoundView {
    pub ip: Seq<char>,
    pub v4: bool,
}

/// An address that a name resolves to.
pub struct Found {
    /// The address.
    pub ip: String,
    /// Is it an IPv4 address?
    pub v4: bool,
}

impl View for Found {
    type V = FoundView;

    open spec fn view(&self) -> FoundView {
        FoundView { ip: self.ip@, v4: self.v4 }
    }
}

/// What the addresses of a list say.
pub open spec fn found_view(list: Seq<Found>) -> Seq<FoundView> {
    Seq::new(list.len(), |i: int| list[i]@)
}

/// The IPv4 addresses among the first `n`.
pub open spec fn v4_addresses(list: Seq<FoundView>, n: nat) -> Seq<Seq<char>>
    decreases n,
{
    if n == 0 {
        seq![]
    } else if list[n - 1].v4 {
        v4_addresses(list, (n - 1) as nat).push(list[n - 1].ip)
    } else {
        v4_addresses(list, (n - 1) as nat)
    }
}

/// The IPv4 addresses of a list.
fn only_v4(list: &Vec<Found>) -> (r: Vec<String>)
    ensures
        texts(r@) == v4_addresses(found_view(list@), list@.len()),
{
    let ghost all = found_view(list@);
    let mut out: Vec<String> = Vec::new();
    let mut i: usize = 0;
    while i < list.len()
        invariant
            all == found_view(list@),
            i <= list@.len(),
            texts(out@) == v4_addresses(all, i as nat),
        decreases list@.len() - i,
    {
        assert(all[i as int] == list@[i as int]@);
        if list[i].v4 {
            let ghost before = out@;
            out.push(list[i].ip.clone());
            assert(texts(out@) =~= texts(before).push(list@[i as int].ip@));
        }
        i += 1;
    }
    out
}

/// What an action asks for. See [`Action`].
pub enum ActionView {
    InspectState,
    InspectAddress,
    Connect(Seq<char>),
    AskInside { ip: Seq<char>, error: Seq<char>, count: nat },
    Resolve,
    Try(Seq<Seq<char>>),
    Sleep,
    Ready(Seq<char>),
    Stopped(Seq<char>),
    Fail(Seq<char>),
}

/// What the wait asks for next.
pub enum Action {
    /// Inspect the container's state.
    InspectState,
    /// Inspect the container's address.
    InspectAddress,
    /// Connect to that address.
    Connect(String),
    /// Ask inside the machine whether the server listens, since the address, that many
    /// times in a row, could not be reached, with that error.
    AskInside { ip: String, error: String, count: u32 },
    /// Resolve the machine's name.
    Resolve,
    /// Connect to the first of the addresses.
    Try(Vec<String>),
    /// Sleep for a second.
    Sleep,
    /// The wait is over: the server answers at that address.
    Ready(String),
    /// The wait is over: the container stopped. Show its log.
    Stopped(String),
    /// The wait is over: it failed.
    Fail(String),
}

impl View for Action {
    type V = ActionView;

    open spec fn view(&self) -> ActionView {
        match *self {
            Action::InspectState => ActionView::InspectState,
            Action::InspectAddress => ActionView::InspectAddress,
            Action::Connect(ip) => ActionView::Connect(ip@),
            Action::AskInside { ip, error, count } => ActionView::AskInside {
                ip: ip@,
                error: error@,
                count: count as nat,
            },
            Action::Resolve => ActionView::Resolve,
            Action::Try(list) => ActionView::Try(texts(list@)),
            Action::Sleep => ActionView::Sleep,
            Action::Ready(ip) => ActionView::Ready(ip@),
            Action::Stopped(message) => ActionView::Stopped(message@),
            Action::Fail(message) => ActionView::Fail(message@),
        }
    }
}

/// What an event says. See [`Event`].
pub enum EventView {
    State(Result<Option<Seq<char>>, Seq<char>>),
    Address(Result<Option<Seq<char>>, Seq<char>>),
    Unusable,
    Accepted(Seq<char>),
    Refused { ip: Seq<char>, kind: Refusal, error: Seq<char> },
    Answered { ip: Seq<char>, error: Seq<char>, count: nat, listening: bool },
    Resolved(Seq<FoundView>),
    Tried { list: Seq<Seq<char>>, accepted: bool },
    Slept,
}

/// The answer to what was asked for last.
pub enum Event {
    /// The container's state, or why it could not be inspected.
    State(Result<Option<String>, String>),
    /// The container's address, or why it could not be inspected.
    Address(Result<Option<String>, String>),
    /// The address is none that can be connected to.
    Unusable,
    /// The server at that address took the connection.
    Accepted(String),
    /// The connection to that address failed.
    Refused { ip: String, kind: Refusal, error: String },
    /// It is known from inside the machine whether the server listens.
    Answered { ip: String, error: String, count: u32, listening: bool },
    /// The machine's name resolves to these addresses, to none where it does not resolve.
    Resolved(Vec<Found>),
    /// It was tried to connect to the first of the addresses.
    Tried { list: Vec<String>, accepted: bool },
    /// The second is over.
    Slept,
}

/// What an optional text, or an error, holds.
pub open spec fn opt_result(r: Result<Option<String>, String>) -> Result<
    Option<Seq<char>>,
    Seq<char>,
> {
    match r {
        Ok(text) => Ok(opt_text(text)),
        Err(message) => Err(message@),
    }
}

impl View for Event {
    type V = EventView;

    open spec fn view(&self) -> EventView {
        match *self {
            Event::State(state) => EventView::State(opt_result(state)),
            Event::Address(ip) => EventView::Address(opt_result(ip)),
            Event::Unusable => EventView::Unusable,
            Event::Accepted(ip) => EventView::Accepted(ip@),
            Event::Refused { ip, kind, error } => EventView::Refused {
                ip: ip@,
                kind: kind,
                error: error@,
            },
            Event::Answered { ip, error, count, listening } => EventView::Answered {
                ip: ip@,
                error: error@,
                count: count as nat,
                listening: listening,
            },
            Event::Resolved(list) => EventView::Resolved(found_view(list@)),
            Event::Tried { list, accepted } => EventView::Tried {
                list: texts(list@),
                accepted: accepted,
            },
            Event::Slept => EventView::Slept,
        }
    }
}

/// What is said along the way.
pub enum LineView {
    Note(Seq<char>),
    Warning(Seq<char>),
}

/// What is said along the way.
pub enum Line {
    /// For the standard output.
    Note(String),
    /// For the standard error.
    Warning(String),
}

impl View for Line {
    type V = LineView;

    open spec fn view(&self) -> LineView {
        match *self {
            Line::Note(text) => LineView::Note(text@),
            Line::Warning(text) => LineView::Warning(text@),
        }
    }
}

/// What an event leads to.
pub struct StepView {
    pub say: Option<LineView>,
    pub act: ActionView,
}

/// What an event leads to: something to say, and what is asked for next.
pub struct Step {
    pub say: Option<Line>,
    pub act: Action,
}

impl View for Step {
    type V = StepView;

    open spec fn view(&self) -> StepView {
        StepView {
            say: match self.say {
                Some(line) => Some(line@),
                None => None,
            },
            act: self.act@,
        }
    }
}

/// What is known in the course of a wait.
pub struct WaitView {
    /// How many attempts have failed.
    pub attempt: nat,
    /// How many of the last connections, without a break, found no route.
    pub blocked: nat,
    /// The last address that an inspection showed; empty before the first.
    pub last: Seq<char>,
    /// The last error of a connection.
    pub last_err: Option<Seq<char>>,
}

impl WaitView {
    /// What holds of every wait that goes on.
    pub open spec fn wf(self) -> bool {
        self.attempt < ATTEMPTS && self.blocked < BARRED_AFTER
    }
}

/// The action, with nothing to say before it.
pub open spec fn quietly(act: ActionView) -> StepView {
    StepView { say: None, act: act }
}

/// Where the server is waited for, in words.
pub open spec fn place(name: Seq<char>, w: WaitView) -> Seq<char> {
    if w.last.len() == 0 {
        name
    } else {
        w.last + ":22"@
    }
}

/// How to let the terminal reach the machine.
pub open spec fn local_network_text(terminal: Option<Seq<char>>) -> Seq<char> {
    "\n  The VM is running but unreachable from this process. macOS requires Local Network permission per app, and a terminal inherits it to everything it launches:\n    System Settings -> Privacy & Security -> Local Network -> enable "@
        + (match terminal {
        Some(app) => app,
        None => "your terminal app"@,
    })
        + "\n  A prompt that was dismissed or denied makes these connections fail silently, exactly like this.\n  Quick check from the same terminal:  nc -vz <vm-ip> 22"@
}

/// What is said every five attempts.
pub open spec fn waiting_text(name: Seq<char>, w: WaitView) -> Seq<char> {
    let start = "waiting for sshd on "@ + place(name, w) + " ("@ + decimal(w.attempt)
        + " attempts"@;
    match w.last_err {
        Some(error) => start + "; last error: "@ + error + ") ..."@,
        None => start + ") ..."@,
    }
}

/// What is said when the attempts are used up.
pub open spec fn timeout_text(
    name: Seq<char>,
    terminal: Option<Seq<char>>,
    w: WaitView,
) -> Seq<char> {
    let start = "timed out waiting for sshd on "@ + place(name, w);
    let middle = match w.last_err {
        Some(error) => start + " (last error: "@ + error + ")"@,
        None => start,
    };
    middle + local_network_text(terminal)
}

/// The end of an attempt that did not reach the server.
pub open spec fn pause(name: Seq<char>, w: WaitView) -> StepView {
    StepView {
        say: if w.attempt > 0 && w.attempt % 5 == 0 {
            Some(LineView::Note(waiting_text(name, w)))
        } else {
            None
        },
        act: ActionView::Sleep,
    }
}

/// What follows where the address that the inspection showed is of no use.
pub open spec fn fall_back(name: Seq<char>, w: WaitView) -> StepView {
    if w.attempt >= DNS_AFTER {
        quietly(ActionView::Resolve)
    } else {
        pause(name, w)
    }
}

/// What follows with some addresses left to try.
pub open spec fn try_next(name: Seq<char>, w: WaitView, list: Seq<Seq<char>>) -> StepView {
    if list.len() > 0 {
        quietly(ActionView::Try(list))
    } else {
        pause(name, w)
    }
}

/// How many connections in a row have found no route, after one more refusal.
pub open spec fn blocked_after(w: WaitView, kind: Refusal) -> nat {
    if kind.unreachable() {
        w.blocked + 1
    } else {
        0
    }
}

/// Does a refusal mean that this process is barred from the machine's network? A denied
/// permission does, and so does a sustained run of connections without a route.
pub open spec fn barred(w: WaitView, kind: Refusal) -> bool {
    blocked_after(w, kind) >= BARRED_AFTER || kind == Refusal::PermissionDenied
}

/// What is known after an event.
pub open spec fn known_after(w: WaitView, event: EventView) -> WaitView {
    match event {
        EventView::Address(Ok(Some(ip))) => WaitView { last: ip, ..w },
        EventView::Refused { ip, kind, error } => if barred(w, kind) {
            w
        } else {
            WaitView { blocked: blocked_after(w, kind), last_err: Some(error), ..w }
        },
        EventView::Slept => if w.attempt + 1 < ATTEMPTS {
            WaitView { attempt: w.attempt + 1, ..w }
        } else {
            w
        },
        _ => w,
    }
}

/// What an event leads to.
pub open spec fn step_after(
    name: Seq<char>,
    host: Seq<char>,
    terminal: Option<Seq<char>>,
    w: WaitView,
    event: EventView,
) -> StepView {
    let now = known_after(w, event);
    match event {
        EventView::State(Err(message)) => quietly(ActionView::Fail(message)),
        EventView::State(Ok(state)) => if state == Some("running"@) {
            quietly(ActionView::InspectAddress)
        } else {
            quietly(ActionView::Stopped(name + " stopped before sshd came up"@))
        },
        EventView::Address(Err(message)) => quietly(ActionView::Fail(message)),
        EventView::Address(Ok(None)) => fall_back(name, now),
        EventView::Address(Ok(Some(ip))) => StepView {
            say: if w.last.len() > 0 && w.last != ip {
                Some(LineView::Note("address changed: "@ + w.last + " -> "@ + ip))
            } else {
                None
            },
            act: ActionView::Connect(ip),
        },
        EventView::Unusable => fall_back(name, now),
        EventView::Accepted(ip) => quietly(ActionView::Ready(ip)),
        EventView::Refused { ip, kind, error } => if barred(w, kind) {
            quietly(ActionView::AskInside { ip, error, count: blocked_after(w, kind) })
        } else {
            fall_back(name, now)
        },
        EventView::Answered { ip, error, count, listening } => if listening {
            StepView {
                say: Some(
                    LineView::Warning(
                        warning_text(
                            "still cannot reach "@ + ip + ":22 after "@ + decimal(count) + "s ("@
                                + error + "), but sshd is confirmed listening inside the VM."@
                                + local_network_text(terminal),
                        ),
                    ),
                ),
                act: ActionView::Ready(ip),
            }
        } else {
            quietly(
                ActionView::Fail(
                    "cannot reach "@ + ip + ":22: "@ + error + local_network_text(terminal),
                ),
            )
        },
        EventView::Resolved(list) => try_next(name, now, v4_addresses(list, list.len())),
        EventView::Tried { list, accepted } => if list.len() > 0 && accepted {
            StepView {
                say: Some(
                    LineView::Note("reached "@ + host + " at "@ + list[0] + " via DNS"@),
                ),
                act: ActionView::Ready(list[0]),
            }
        } else if list.len() > 0 {
            try_next(name, now, list.skip(1))
        } else {
            pause(name, now)
        },
        EventView::Slept => if w.attempt + 1 < ATTEMPTS {
            quietly(ActionView::InspectState)
        } else {
            quietly(ActionView::Fail(timeout_text(name, terminal, now)))
        },
    }
}

/// A wait for the ssh server of a machine.
pub struct Wait {
    attempt: u32,
    blocked: u32,
    last: String,
    last_err: Option<String>,
}

impl View for Wait {
    type V = WaitView;

    closed spec fn view(&self) -> WaitView {
        WaitView {
            attempt: self.attempt as nat,
            blocked: self.blocked as nat,
            last: self.last@,
            last_err: opt_text(self.last_err),
        }
    }
}

/// The hint on how to let the terminal reach the machine. It names the terminal's
/// application where that is known.
pub fn local_network_hint(terminal: &Option<String>) -> (r: String)
    ensures
        r@ == local_network_text(opt_text(*terminal)),
{
    let app = match terminal {
        Some(app) => app.clone(),
        None => "your terminal app".to_owned(),
    };
    "\n  The VM is running but unreachable from this process. macOS requires Local Network permission per app, and a terminal inherits it to everything it launches:\n    System Settings -> Privacy & Security -> Local Network -> enable ".to_owned().concat(
    app.as_str()).concat(
        "\n  A prompt that was dismissed or denied makes these connections fail silently, exactly like this.\n  Quick check from the same terminal:  nc -vz <vm-ip> 22",
    )
}

/// An action, and nothing to say.
fn just(act: Action) -> (r: Step)
    ensures
        r@ == quietly(act@),
{
    Step { say: None, act: act }
}

impl Wait {
    /// A wait that has not begun. What it asks for first is the container's state.
    pub fn begin() -> (r: Wait)
        ensures
            r@ == (WaitView { attempt: 0, blocked: 0, last: seq![], last_err: None }),
            r@.wf(),
    {
        Wait { attempt: 0, blocked: 0, last: String::new(), last_err: None }
    }

    /// Where the server is waited for, in words.
    fn place(&self, name: &str) -> (r: String)
        ensures
            r@ == place(name@, self@),
    {
        if self.last.as_str().is_empty() {
            name.to_owned()
        } else {
            self.last.clone().concat(":22")
        }
    }

    /// What is said every five attempts.
    fn waiting(&self, name: &str) -> (r: String)
        ensures
            r@ == waiting_text(name@, self@),
    {
        let start = "waiting for sshd on ".to_owned().concat(self.place(name).as_str()).concat(
            " (",
        ).concat(decimal_text(self.attempt).as_str()).concat(" attempts");
        match &self.last_err {
            Some(error) => start.concat("; last error: ").concat(error.as_str()).concat(
                ") ...",
            ),
            None => start.concat(") ..."),
        }
    }

    /// What is said when the attempts are used up.
    fn timeout(&self, name: &str, terminal: &Option<String>) -> (r: String)
        ensures
            r@ == timeout_text(name@, opt_text(*terminal), self@),
    {
        let start = "timed out waiting for sshd on ".to_owned().concat(self.place(name).as_str());
        let middle = match &self.last_err {
            Some(error) => start.concat(" (last error: ").concat(error.as_str()).concat(")"),
            None => start,
        };
        middle.concat(local_network_hint(terminal).as_str())
    }

    /// The end of an attempt that did not reach the server.
    fn pause(&self, name: &str) -> (r: Step)
        ensures
            r@ == pause(name@, self@),
    {
        let say = if self.attempt > 0 && self.attempt % 5 == 0 {
            Some(Line::Note(self.waiting(name)))
        } else {
            None
        };
        Step { say: say, act: Action::Sleep }
    }

    /// What follows where the address that the inspection showed is of no use.
    fn fall_back(&self, name: &str) -> (r: Step)
        ensures
            r@ == fall_back(name@, self@),
    {
        if self.attempt >= DNS_AFTER {
            just(Action::Resolve)
        } else {
            self.pause(name)
        }
    }

    /// What follows with some addresses left to try.
    fn try_next(&self, name: &str, list: Vec<String>) -> (r: Step)
        ensures
            r@ == try_next(name@, self@, texts(list@)),
    {
        if list.len() > 0 {
            just(Action::Try(list))
        } else {
            self.pause(name)
        }
    }
}

/// All but the first of the addresses.
fn without_first(list: &Vec<String>) -> (r: Vec<String>)
    requires
        list@.len() > 0,
    ensures
        texts(r@) == texts(list@).skip(1),
{
    let mut out: Vec<String> = Vec::new();
    let mut i: usize = 1;
    while i < list.len()
        invariant
            1 <= i <= list@.len(),
            texts(out@) == texts(list@).subrange(1, i as int),
        decreases list@.len() - i,
    {
        let ghost before = out@;
        out.push(list[i].clone());
        assert(texts(out@) =~= texts(before).push(list@[i as int]@));
        i += 1;
        assert(texts(out@) =~= texts(list@).subrange(1, i as int));
    }
    assert(texts(out@) =~= texts(list@).skip(1));
    out
}

impl Sandbox {
    /// Takes an event of the wait, and says what is asked for next.
    ///
    /// The address is read anew at every attempt: the runtime assigns it a moment after
    /// the container appears, and can report an earlier one in between. `host` is the
    /// machine's name, and `terminal` the application that this process was started from.
    pub fn wait_for_sshd(
        &self,
        host: &str,
        terminal: &Option<String>,
        wait: &mut Wait,
        event: &Event,
    ) -> (r: Step)
        requires
            old(wait)@.wf(),
        ensures
            final(wait)@ == known_after(old(wait)@, event@),
            final(wait)@.wf(),
            r@ == step_after(self@.name, host@, opt_text(*terminal), old(wait)@, event@),
    {
        let name = self.name.as_str();
        match event {
            Event::State(answer) => match answer {
                Err(message) => just(Action::Fail(message.clone())),
                Ok(state) => {
                    let running = match state {
                        Some(s) => same_text(s.as_str(), "running"),
                        None => false,
                    };
                    if running {
                        just(Action::InspectAddress)
                    } else {
                        just(
                            Action::Stopped(
                                name.to_owned().concat(" stopped before sshd came up"),
                            ),
                        )
                    }
                },
            },
            Event::Address(answer) => match answer {
                Err(message) => just(Action::Fail(message.clone())),
                Ok(None) => wait.fall_back(name),
                Ok(Some(ip)) => {
                    let say = if !wait.last.as_str().is_empty() && !same_text(
                        wait.last.as_str(),
                        ip.as_str(),
                    ) {
                        Some(
                            Line::Note(
                                "address changed: ".to_owned().concat(wait.last.as_str()).concat(
                                    " -> ",
                                ).concat(ip.as_str()),
                            ),
                        )
                    } else {
                        None
                    };
                    wait.last = ip.clone();
                    Step { say: say, act: Action::Connect(ip.clone()) }
                },
            },
            Event::Unusable => wait.fall_back(name),
            Event::Accepted(ip) => just(Action::Ready(ip.clone())),
            Event::Refused { ip, kind, error } => {
                let count: u32 = match kind {
                    Refusal::HostUnreachable | Refusal::NetworkUnreachable => wait.blocked + 1,
                    Refusal::PermissionDenied | Refusal::Other => 0,
                };
                if count >= BARRED_AFTER || *kind == Refusal::PermissionDenied {
                    just(
                        Action::AskInside { ip: ip.clone(), error: error.clone(), count: count },
                    )
                } else {
                    wait.blocked = count;
                    wait.last_err = Some(error.clone());
                    wait.fall_back(name)
                }
            },
            Event::Answered { ip, error, count, listening } => {
                if *listening {
                    let message = "still cannot reach ".to_owned().concat(ip.as_str()).concat(
                        ":22 after ",
                    ).concat(decimal_text(*count).as_str()).concat("s (").concat(
                        error.as_str(),
                    ).concat("), but sshd is confirmed listening inside the VM.").concat(
                        local_network_hint(terminal).as_str(),
                    );
                    Step {
                        say: Some(Line::Warning(warning(message.as_str()))),
                        act: Action::Ready(ip.clone()),
                    }
                } else {
                    just(
                        Action::Fail(
                            "cannot reach ".to_owned().concat(ip.as_str()).concat(":22: ").concat(
                                error.as_str(),
                            ).concat(local_network_hint(terminal).as_str()),
                        ),
                    )
                }
            },
            Event::Resolved(list) => wait.try_next(name, only_v4(list)),
            Event::Tried { list, accepted } => {
                if list.len() == 0 {
                    wait.pause(name)
                } else if *accepted {
                    let ip = list[0].clone();
                    Step {
                        say: Some(
                            Line::Note(
                                "reached ".to_owned().concat(host).concat(" at ").concat(
                                    ip.as_str(),
                                ).concat(" via DNS"),
                            ),
                        ),
                        act: Action::Ready(ip),
                    }
                } else {
                    wait.try_next(name, without_first(list))
                }
            },
            Event::Slept => {
                if wait.attempt + 1 < ATTEMPTS {
                    wait.attempt = wait.attempt + 1;
                    just(Action::InspectState)
                } else {
                    just(Action::Fail(wait.timeout(name, terminal)))
                }
            },
        }
    }

    /// The command that asks inside the machine, without its network, whether the ssh
    /// server listens.
    pub fn listening_command(&self) -> (r: CommandLine)
        ensures
            r@ == container(seq!["exec"@, self@.name, "sh"@, "-c"@, LISTENING_SCRIPT@]),
    {
        let args = vec![
            "exec".to_owned(),
            self.name.clone(),
            "sh".to_owned(),
            "-c".to_owned(),
            LISTENING_SCRIPT.to_owned(),
        ];
        assert(texts(args@) =~= seq!["exec"@, self@.name, "sh"@, "-c"@, LISTENING_SCRIPT@]);
        container_command(args)
    }

    /// Does the ssh server listen inside the machine, by how the command that asks there
    /// ended?
    pub fn sshd_listening_via_exec(&self, outcome: &Outcome) -> (r: bool)
        ensures
            r == captured(
                container(seq!["exec"@, self@.name, "sh"@, "-c"@, LISTENING_SCRIPT@]),
                *outcome,
            ) is Ok,
    {
        self.listening_command().capture(outcome).is_ok()
    }

    /// The command that shows the container's log.
    pub fn logs_command(&self) -> (r: CommandLine)
        ensures
            r@ == container(seq!["logs"@, self@.name]),
    {
        let args = vec!["logs".to_owned(), self.name.clone()];
        assert(texts(args@) =~= seq!["logs"@, self@.name]);
        container_command(args)
    }

    /// What is said where the container's log could not be shown.
    pub fn dump_logs_or_hint(&self, outcome: &Outcome) -> (r: Option<String>)
        ensures
            match r {
                Some(hint) => !outcome.ok() && hint@ == NO_LOGS@,
                None => outcome.ok(),
            },
    {
        if self.logs_command().passthrough(outcome).is_err() {
            Some(NO_LOGS.to_owned())
        } else {
            None
        }
    }
}

/// The script that looks for a listening socket on port 22 in the machine's tables.
pub const LISTENING_SCRIPT: &'static str = "awk 'FNR > 1 { split($2, a, \":\"); if (a[2] == \"0016\" && $4 == \"0A\") f = 1 } END { exit !f }' /proc/net/tcp /proc/net/tcp6";

/// What is said where there are no logs.
pub const NO_LOGS: &'static str = "(no logs: the container already deleted itself (--rm); re-run with CLAUDE_SANDBOX_DEBUG=1 to keep failed VMs for `container logs`)";

/// Is the event an answer to what the action asks for?
pub open spec fn answers(action: ActionView, event: EventView) -> bool {
    match action {
        ActionView::InspectState => event is State,
        ActionView::InspectAddress => event is Address,
        ActionView::Connect(ip) => match event {
            EventView::Unusable => true,
            EventView::Accepted(at) => at == ip,
            EventView::Refused { ip: at, .. } => at == ip,
            _ => false,
        },
        ActionView::AskInside { ip, error, count } => event matches EventView::Answered {
            ip: at,
            error: with,
            count: times,
            ..
        } && at == ip && with == error && times == count,
        ActionView::Resolve => event is Resolved,
        ActionView::Try(list) => event matches EventView::Tried { list: tried, .. } && tried
            == list,
        ActionView::Sleep => event is Slept,
        ActionView::Ready(_) | ActionView::Stopped(_) | ActionView::Fail(_) => false,
    }
}

/// How far an attempt has come when an action is asked for.
pub open spec fn stage(action: ActionView) -> nat {
    match action {
        ActionView::InspectState => 6,
        ActionView::InspectAddress => 5,
        ActionView::Connect(_) => 4,
        ActionView::AskInside { .. } => 3,
        ActionView::Resolve => 3,
        ActionView::Try(_) => 2,
        ActionView::Sleep => 1,
        _ => 0,
    }
}

/// How many addresses an action leaves to try.
pub open spec fn left_to_try(action: ActionView) -> nat {
    match action {
        ActionView::Try(list) => list.len(),
        _ => 0,
    }
}

/// The wait ends: every answer brings it on, by one attempt more, a later stage of the
/// same attempt, or one address less to try.
pub proof fn law_wait_ends(
    name: Seq<char>,
    host: Seq<char>,
    terminal: Option<Seq<char>>,
    w: WaitView,
    action: ActionView,
    event: EventView,
)
    requires
        w.wf(),
        answers(action, event),
    ensures
        ({
            let now = known_after(w, event);
            let next = step_after(name, host, terminal, w, event).act;
            &&& now.wf()
            &&& decreases_to!(
                ATTEMPTS - w.attempt, stage(action), left_to_try(action) =>
                ATTEMPTS - now.attempt, stage(next), left_to_try(next)
            )
        }),
{
}

/// The address that a wait ends with is one at which the server took a connection just
/// now, or at which it is known from inside the machine to listen.
pub proof fn law_address_was_confirmed(
    name: Seq<char>,
    host: Seq<char>,
    terminal: Option<Seq<char>>,
    w: WaitView,
    action: ActionView,
    event: EventView,
    ip: Seq<char>,
)
    requires
        answers(action, event),
        step_after(name, host, terminal, w, event).act == ActionView::Ready(ip),
    ensures
        ({
            ||| action == ActionView::Connect(ip) && event == EventView::Accepted(ip)
            ||| action matches ActionView::Try(list) && list.len() > 0 && list[0] == ip
                && event == (EventView::Tried { list, accepted: true })
            ||| action matches ActionView::AskInside { ip: at, error, count } && at == ip && event
                == (EventView::Answered { ip, error, count, listening: true })
        }),
{
}

/// The address is read anew at every attempt: the wait connects only to one that an
/// inspection showed just now.
pub proof fn law_connects_to_the_inspected_address(
    name: Seq<char>,
    host: Seq<char>,
    terminal: Option<Seq<char>>,
    w: WaitView,
    event: EventView,
    ip: Seq<char>,
)
    requires
        step_after(name, host, terminal, w, event).act == ActionView::Connect(ip),
    ensures
        event == EventView::Address(Ok(Some(ip))),
{
}

/// The machine's name is resolved only once five attempts have failed, so that no early
/// lookup is remembered as having found nothing.
pub proof fn law_dns_is_a_fallback(
    name: Seq<char>,
    host: Seq<char>,
    terminal: Option<Seq<char>>,
    w: WaitView,
    event: EventView,
)
    requires
        step_after(name, host, terminal, w, event).act is Resolve,
    ensures
        known_after(w, event).attempt >= DNS_AFTER,
{
}

/// What is known after a number of events.
pub open spec fn known_after_all(w: WaitView, events: Seq<EventView>) -> WaitView
    decreases events.len(),
{
    if events.len() == 0 {
        w
    } else {
        known_after(known_after_all(w, events.drop_last()), events.last())
    }
}

/// What is known before the first event.
pub open spec fn nothing_known() -> WaitView {
    WaitView { attempt: 0, blocked: 0, last: seq![], last_err: None }
}

/// How often the wait has slept.
pub open spec fn sleeps(events: Seq<EventView>) -> nat
    decreases events.len(),
{
    if events.len() == 0 {
        0
    } else if events.last() is Slept {
        sleeps(events.drop_last()) + 1
    } else {
        sleeps(events.drop_last())
    }
}

/// The machine is tried sixty times: whatever happens, it takes sixty sleeps for the
/// attempts to be used up, and with the sixtieth they are.
pub proof fn law_sixty_attempts(
    name: Seq<char>,
    host: Seq<char>,
    terminal: Option<Seq<char>>,
    events: Seq<EventView>,
)
    ensures
        ({
            let w = known_after_all(nothing_known(), events);
            let next = step_after(name, host, terminal, w, EventView::Slept).act;
            &&& sleeps(events) < ATTEMPTS ==> w.attempt == sleeps(events)
            &&& next is Fail <==> sleeps(events) + 1 >= ATTEMPTS
            &&& next is InspectState <==> sleeps(events) + 1 < ATTEMPTS
        }),
{
    lemma_attempts(events);
}

/// The attempts are the sleeps, up to the last attempt.
proof fn lemma_attempts(events: Seq<EventView>)
    ensures
        known_after_all(nothing_known(), events).attempt == if sleeps(events) < ATTEMPTS {
            sleeps(events)
        } else {
            (ATTEMPTS - 1) as nat
        },
    decreases events.len(),
{
    if events.len() > 0 {
        lemma_attempts(events.drop_last());
    }
}

/// Why connections to the inspected address failed, in order.
pub open spec fn refusals(events: Seq<EventView>) -> Seq<Refusal>
    decreases events.len(),
{
    if events.len() == 0 {
        seq![]
    } else {
        match events.last() {
            EventView::Refused { kind, .. } => refusals(events.drop_last()).push(kind),
            _ => refusals(events.drop_last()),
        }
    }
}

/// Has no refusal so far meant that this process is barred? It is so in every wait that
/// goes on.
pub open spec fn unbarred(events: Seq<EventView>) -> bool
    decreases events.len(),
{
    events.len() > 0 ==> {
        &&& unbarred(events.drop_last())
        &&& events.last() matches EventView::Refused { kind, .. } ==> !barred(
            known_after_all(nothing_known(), events.drop_last()),
            kind,
        )
    }
}

/// A refusal means that this process is barred from the machine's network exactly if it
/// is a denied permission, or the last of at least fifteen refusals in a row, and
/// without a break, for want of a route.
pub proof fn law_barred_after_a_run(events: Seq<EventView>, kind: Refusal)
    requires
        unbarred(events),
    ensures
        barred(known_after_all(nothing_known(), events), kind) <==> kind
            == Refusal::PermissionDenied || run_length(refusals(events).push(kind))
            >= BARRED_AFTER,
{
    lemma_blocked(events);
    let all = refusals(events).push(kind);
    assert(all.drop_last() =~= refusals(events));
}

/// What the wait counts is the run of refusals for want of a route.
proof fn lemma_blocked(events: Seq<EventView>)
    requires
        unbarred(events),
    ensures
        known_after_all(nothing_known(), events).blocked == run_length(refusals(events)),
    decreases events.len(),
{
    if events.len() > 0 {
        let front = events.drop_last();
        lemma_blocked(front);
        if let EventView::Refused { kind, .. } = events.last() {
            assert(refusals(events).drop_last() =~= refusals(front));
        }
    }
}

/// A connection that was taken ends the wait, with the address that took it: whatever the
/// attempt, and whatever was refused before.
pub proof fn law_accepted_ends_the_wait(
    name: Seq<char>,
    host: Seq<char>,
    terminal: Option<Seq<char>>,
    w: WaitView,
    ip: Seq<char>,
)
    ensures
        step_after(name, host, terminal, w, EventView::Accepted(ip)) == (StepView {
            say: None,
            act: ActionView::Ready(ip),
        }),
{
}

/// The wait goes on only while the container runs: then its address is inspected, and in any
/// other state the wait ends, with a message that starts with the container's name. An
/// inspection that fails ends it with its own error.
pub proof fn law_only_a_running_container_is_waited_for(
    name: Seq<char>,
    host: Seq<char>,
    terminal: Option<Seq<char>>,
    w: WaitView,
    state: Option<Seq<char>>,
    error: Seq<char>,
)
    ensures
        state == Some("running"@) ==> step_after(
            name,
            host,
            terminal,
            w,
            EventView::State(Ok(state)),
        ).act is InspectAddress,
        state != Some("running"@) ==> (step_after(
            name,
            host,
            terminal,
            w,
            EventView::State(Ok(state)),
        ).act matches ActionView::Stopped(message) && starts(message, name)),
        step_after(name, host, terminal, w, EventView::State(Err(error))).act
            == ActionView::Fail(error),
        step_after(name, host, terminal, w, EventView::Address(Err(error))).act
            == ActionView::Fail(error),
{
    law_pieces(name, " stopped before sshd came up"@, seq![]);
}

/// Every address that an inspection shows is connected to, and a change of address is
/// noted, with both.
pub proof fn law_shown_address_is_tried(
    name: Seq<char>,
    host: Seq<char>,
    terminal: Option<Seq<char>>,
    w: WaitView,
    ip: Seq<char>,
)
    ensures
        ({
            let step = step_after(name, host, terminal, w, EventView::Address(Ok(Some(ip))));
            &&& step.act == ActionView::Connect(ip)
            &&& known_after(w, EventView::Address(Ok(Some(ip)))).last == ip
            &&& step.say is Some <==> w.last.len() > 0 && w.last != ip
            &&& step.say is Some ==> (step.say->0 matches LineView::Note(text) && has_text(
                text,
                w.last,
            ) && ends(text, ip))
        }),
{
    lemma_five_pieces(seq![], "address changed: "@, w.last, " -> "@, ip);
    assert(seq![] + "address changed: "@ =~= "address changed: "@);
}

/// Where there is no address to connect to, or a connection to it failed without this
/// process being barred, the attempt is over: the machine's name is resolved from the sixth
/// attempt on, and before that the wait sleeps.
pub proof fn law_failed_attempt(
    name: Seq<char>,
    host: Seq<char>,
    terminal: Option<Seq<char>>,
    w: WaitView,
    ip: Seq<char>,
    kind: Refusal,
    error: Seq<char>,
)
    requires
        kind != Refusal::PermissionDenied,
        kind == Refusal::Other || w.blocked + 1 < 15,
    ensures
        ({
            let none = step_after(name, host, terminal, w, EventView::Address(Ok(None))).act;
            let unusable = step_after(name, host, terminal, w, EventView::Unusable).act;
            let event = EventView::Refused { ip, kind, error };
            let refused = step_after(name, host, terminal, w, event).act;
            let now = known_after(w, event);
            &&& none == refused && unusable == refused
            &&& w.attempt >= 5 ==> refused is Resolve
            &&& w.attempt < 5 ==> refused is Sleep
            &&& now.last_err == Some(error)
            &&& now.blocked == if kind == Refusal::Other {
                0
            } else {
                w.blocked + 1
            }
        }),
{
}

/// A refusal asks inside the machine, with the address, the error and the count at hand,
/// where a permission was denied, or where it is at least the fifteenth in a row for want of
/// a route.
pub proof fn law_barred_asks_inside(
    name: Seq<char>,
    host: Seq<char>,
    terminal: Option<Seq<char>>,
    w: WaitView,
    ip: Seq<char>,
    kind: Refusal,
    error: Seq<char>,
)
    requires
        kind == Refusal::PermissionDenied || kind != Refusal::Other && w.blocked + 1 >= 15,
    ensures
        step_after(name, host, terminal, w, EventView::Refused { ip, kind, error }).act == (
        ActionView::AskInside {
            ip,
            error,
            count: if kind == Refusal::PermissionDenied {
                0
            } else {
                w.blocked + 1
            },
        }),
{
}

/// A server that is known from inside to listen ends the wait with its address and a
/// warning; one that does not ends it with an error. Both say which address could not be
/// reached, and why.
pub proof fn law_answer_from_inside_ends_the_wait(
    name: Seq<char>,
    host: Seq<char>,
    terminal: Option<Seq<char>>,
    w: WaitView,
    ip: Seq<char>,
    error: Seq<char>,
    count: nat,
)
    ensures
        ({
            let yes = EventView::Answered { ip, error, count, listening: true };
            let no = EventView::Answered { ip, error, count, listening: false };
            let good = step_after(name, host, terminal, w, yes);
            let bad = step_after(name, host, terminal, w, no);
            &&& good.act == ActionView::Ready(ip)
            &&& good.say matches Some(LineView::Warning(_))
            &&& bad.say is None
            &&& bad.act matches ActionView::Fail(message) && has_text(message, ip) && has_text(
                message,
                error,
            ) && ends(message, local_network_text(terminal))
        }),
{
    lemma_five_pieces(
        "cannot reach "@,
        ip,
        ":22: "@,
        error,
        local_network_text(terminal),
    );
}

/// The addresses that a name resolves to are kept in order, if they are IPv4 addresses.
pub proof fn law_v4_addresses(list: Seq<FoundView>, one: FoundView)
    ensures
        v4_addresses(Seq::<FoundView>::empty(), 0) == Seq::<Seq<char>>::empty(),
        one.v4 ==> v4_addresses(list.push(one), list.len() + 1) == v4_addresses(
            list,
            list.len(),
        ).push(one.ip),
        !one.v4 ==> v4_addresses(list.push(one), list.len() + 1) == v4_addresses(
            list,
            list.len(),
        ),
{
    lemma_v4_prefix(list, one, list.len());
}

/// A longer list changes nothing of what comes before.
proof fn lemma_v4_prefix(list: Seq<FoundView>, one: FoundView, n: nat)
    requires
        n <= list.len(),
    ensures
        v4_addresses(list.push(one), n) == v4_addresses(list, n),
    decreases n,
{
    if n > 0 {
        lemma_v4_prefix(list, one, (n - 1) as nat);
    }
}

/// The IPv4 addresses that the name resolves to are tried, all of them, and where there are
/// none the wait sleeps.
pub proof fn law_resolved_addresses_are_tried(
    name: Seq<char>,
    host: Seq<char>,
    terminal: Option<Seq<char>>,
    w: WaitView,
    list: Seq<FoundView>,
)
    ensures
        ({
            let found = v4_addresses(list, list.len());
            let act = step_after(name, host, terminal, w, EventView::Resolved(list)).act;
            &&& found.len() > 0 ==> act == ActionView::Try(found)
            &&& found.len() == 0 ==> act is Sleep
        }),
{
}

/// Of the addresses that are tried the first that takes a connection ends the wait; until
/// one does, the others are tried in turn, and with none left the wait sleeps.
pub proof fn law_addresses_are_tried_in_turn(
    name: Seq<char>,
    host: Seq<char>,
    terminal: Option<Seq<char>>,
    w: WaitView,
    first: Seq<char>,
    rest: Seq<Seq<char>>,
)
    ensures
        ({
            let list = seq![first] + rest;
            let taken = EventView::Tried { list, accepted: true };
            let refused = EventView::Tried { list, accepted: false };
            let good = step_after(name, host, terminal, w, taken);
            let next = step_after(name, host, terminal, w, refused).act;
            &&& good.act == ActionView::Ready(first)
            &&& good.say matches Some(LineView::Note(text)) && has_text(text, host) && has_text(
                text,
                first,
            )
            &&& rest.len() > 0 ==> next == ActionView::Try(rest)
            &&& rest.len() == 0 ==> next is Sleep
        }),
{
    let list = seq![first] + rest;
    assert(list[0] == first);
    assert(list.skip(1) =~= rest);
    lemma_five_pieces("reached "@, host, " at "@, first, " via DNS"@);
}

/// After a sleep the next attempt begins with the container's state, up to the sixtieth
/// attempt; after that the wait fails.
pub proof fn law_sleep_begins_the_next_attempt(
    name: Seq<char>,
    host: Seq<char>,
    terminal: Option<Seq<char>>,
    w: WaitView,
)
    ensures
        ({
            let act = step_after(name, host, terminal, w, EventView::Slept).act;
            &&& w.attempt + 1 < 60 ==> act is InspectState && known_after(
                w,
                EventView::Slept,
            ).attempt == w.attempt + 1
            &&& w.attempt + 1 >= 60 ==> act is Fail
        }),
{
}

/// What a wait knows changes only by what it is told: the address by an inspection that
/// shows one, the error and the count of failures for want of a route by a refused
/// connection, and the number of attempts by a sleep.
pub proof fn law_knowledge_changes_only_by_what_is_told(w: WaitView, event: EventView)
    ensures
        ({
            let now = known_after(w, event);
            &&& now.last != w.last ==> event is Address
            &&& now.last_err != w.last_err ==> event is Refused
            &&& now.blocked != w.blocked ==> event is Refused
            &&& now.attempt != w.attempt ==> event is Slept
        }),
{
}

/// A note on where the server is waited for comes every five attempts, before a sleep: it
/// names the address, or the container where no address is known, and the number of
/// attempts, and ends with the last error, if there was one.
pub proof fn law_notes_while_waiting(
    name: Seq<char>,
    host: Seq<char>,
    terminal: Option<Seq<char>>,
    w: WaitView,
    event: EventView,
)
    requires
        step_after(name, host, terminal, w, event).act is Sleep,
    ensures
        ({
            let now = known_after(w, event);
            let say = step_after(name, host, terminal, w, event).say;
            let place = if now.last.len() > 0 {
                now.last + ":22"@
            } else {
                name
            };
            &&& say is Some <==> now.attempt > 0 && now.attempt % 5 == 0
            &&& say is Some ==> (say->0 matches LineView::Note(text) && {
                let start = "waiting for sshd on "@ + place + " ("@ + decimal(now.attempt)
                    + " attempts"@;
                &&& now.last_err is None ==> text == start + ") ..."@
                &&& now.last_err is Some ==> text == start + "; last error: "@ + now.last_err->0
                    + ") ..."@
            })
        }),
{
}

/// When the attempts are used up, the error says where the server was waited for and what
/// the last connection failed with, and ends with the hint on the local network.
pub proof fn law_timeout_says_why(
    name: Seq<char>,
    host: Seq<char>,
    terminal: Option<Seq<char>>,
    w: WaitView,
)
    requires
        w.attempt + 1 >= 60,
    ensures
        ({
            let place = if w.last.len() > 0 {
                w.last + ":22"@
            } else {
                name
            };
            step_after(name, host, terminal, w, EventView::Slept).act matches ActionView::Fail(
                message,
            ) && ends(message, local_network_text(terminal)) && starts(
                message,
                "timed out waiting for sshd on "@ + place,
            ) && (w.last_err matches Some(error) ==> has_text(message, error))
        }),
{
    let place = place(name, w);
    let start = "timed out waiting for sshd on "@ + place;
    let hint = local_network_text(terminal);
    match w.last_err {
        Some(error) => {
            lemma_five_pieces(start, " (last error: "@, error, ")"@, hint);
        },
        None => {
            law_pieces(start, hint, seq![]);
        },
    }
}

/// The hint names the terminal's application, if it is known.
pub proof fn law_hint_names_the_terminal(app: Seq<char>)
    ensures
        has_text(local_network_text(Some(app)), app),
        local_network_text(None) == local_network_text(Some("your terminal app"@)),
{
    law_pieces(
        "\n  The VM is running but unreachable from this process. macOS requires Local Network permission per app, and a terminal inherits it to everything it launches:\n    System Settings -> Privacy & Security -> Local Network -> enable "@,
        app,
        "\n  A prompt that was dismissed or denied makes these connections fail silently, exactly like this.\n  Quick check from the same terminal:  nc -vz <vm-ip> 22"@,
    );
}

/// An event says what it was made with.
pub proof fn law_events_say_what_they_hold(
    text: Option<String>,
    ip: String,
    error: String,
    kind: Refusal,
    count: u32,
    flag: bool,
    found: Vec<Found>,
    list: Vec<String>,
)
    ensures
        Event::State(Ok(Some(ip)))@ == EventView::State(Ok(Some(ip@))),
        Event::State(Ok(None))@ == EventView::State(Ok(None)),
        Event::State(Err(error))@ == EventView::State(Err(error@)),
        Event::Address(Ok(Some(ip)))@ == EventView::Address(Ok(Some(ip@))),
        Event::Address(Ok(None))@ == EventView::Address(Ok(None)),
        Event::Address(Err(error))@ == EventView::Address(Err(error@)),
        Event::Unusable@ == EventView::Unusable,
        Event::Accepted(ip)@ == EventView::Accepted(ip@),
        (Event::Refused { ip, kind, error })@ == (EventView::Refused {
            ip: ip@,
            kind,
            error: error@,
        }),
        (Event::Answered { ip, error, count, listening: flag })@ == (EventView::Answered {
            ip: ip@,
            error: error@,
            count: count as nat,
            listening: flag,
        }),
        Event::Resolved(found)@ is Resolved,
        Event::Resolved(found)@->Resolved_0.len() == found@.len(),
        forall|k: int|
            0 <= k < found@.len() ==> (#[trigger] Event::Resolved(found)@->Resolved_0[k]).ip
                == found@[k].ip@ && Event::Resolved(found)@->Resolved_0[k].v4 == found@[k].v4,
        (Event::Tried { list, accepted: flag })@ is Tried,
        (Event::Tried { list, accepted: flag })@->accepted == flag,
        (Event::Tried { list, accepted: flag })@->list.len() == list@.len(),
        forall|k: int|
            0 <= k < list@.len() ==> #[trigger] (Event::Tried {
                list,
                accepted: flag,
            })@->list[k] == list@[k]@,
        Event::Slept@ == EventView::Slept,
{
}

/// A step says what it was made with: what is to be said, and the action.
pub proof fn law_steps_say_what_they_hold(
    step: Step,
    ip: String,
    error: String,
    count: u32,
    list: Vec<String>,
)
    ensures
        step@.act == step.act@,
        step.say is None <==> step@.say is None,
        step.say matches Some(line) ==> step@.say == Some(line@),
        Line::Note(ip)@ == LineView::Note(ip@),
        Line::Warning(ip)@ == LineView::Warning(ip@),
        Action::InspectState@ == ActionView::InspectState,
        Action::InspectAddress@ == ActionView::InspectAddress,
        Action::Connect(ip)@ == ActionView::Connect(ip@),
        (Action::AskInside { ip, error, count })@ == (ActionView::AskInside {
            ip: ip@,
            error: error@,
            count: count as nat,
        }),
        Action::Resolve@ == ActionView::Resolve,
        Action::Try(list)@ is Try,
        Action::Try(list)@->Try_0.len() == list@.len(),
        forall|k: int|
            0 <= k < list@.len() ==> #[trigger] Action::Try(list)@->Try_0[k] == list@[k]@,
        Action::Sleep@ == ActionView::Sleep,
        Action::Ready(ip)@ == ActionView::Ready(ip@),
        Action::Stopped(error)@ == ActionView::Stopped(error@),
        Action::Fail(error)@ == ActionView::Fail(error@),
{
}

/// What is asked inside the machine: whether a socket on port 22, in hexadecimal 0016,
/// listens, by the tables for both versions of the protocol.
pub proof fn law_listening_script()
    ensures
        LISTENING_SCRIPT@
            == "awk 'FNR > 1 { split($2, a, \":\"); if (a[2] == \"0016\" && $4 == \"0A\") f = 1 } END { exit !f }' /proc/net/tcp /proc/net/tcp6"@,
{
}

/// The warning on a server that only answers inside the machine says which address could not
/// be reached, how often in a row and why, and ends with the hint.
pub proof fn law_warning_says_why(
    name: Seq<char>,
    host: Seq<char>,
    terminal: Option<Seq<char>>,
    w: WaitView,
    ip: Seq<char>,
    error: Seq<char>,
    count: nat,
)
    ensures
        step_after(
            name,
            host,
            terminal,
            w,
            EventView::Answered { ip, error, count, listening: true },
        ).say == Some(
            LineView::Warning(
                warning_text(
                    "still cannot reach "@ + ip + ":22 after "@ + decimal(count) + "s ("@ + error
                        + "), but sshd is confirmed listening inside the VM."@
                        + local_network_text(terminal),
                ),
            ),
        ),
{
}

} // verus!
