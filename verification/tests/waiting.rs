use zed_sandbox::process::Outcome;
use zed_sandbox::readiness::{
    local_network_hint, Action, Event, Found, Line, Refusal, Step, Wait, LISTENING_SCRIPT, NO_LOGS,
};
use zed_sandbox::sandbox::Sandbox;

const HOST: &str = "box.container";

fn tool() -> String {
    "CLAUDE_SANDBOX".to_lowercase().replace('_', "-")
}

fn sandbox() -> Sandbox {
    Sandbox::assemble(
        "/h".to_string(),
        "u".to_string(),
        None,
        "/h/p".to_string(),
        "p",
        &[0xab; 16],
    )
}

fn name() -> String {
    format!("{}-p-ababab", tool())
}

fn terminal() -> Option<String> {
    Some("Ghostty".to_string())
}

struct Run {
    sb: Sandbox,
    wait: Wait,
}

impl Run {
    fn new() -> Run {
        Run { sb: sandbox(), wait: Wait::begin() }
    }

    fn on(&mut self, event: Event) -> Step {
        self.sb.wait_for_sshd(HOST, &terminal(), &mut self.wait, &event)
    }

    fn running(&mut self) {
        let step = self.on(Event::State(Ok(Some("running".to_string()))));
        assert!(matches!(step.act, Action::InspectAddress) && step.say.is_none());
    }

    fn address(&mut self, ip: &str) -> Step {
        self.running();
        let step = self.on(Event::Address(Ok(Some(ip.to_string()))));
        assert!(matches!(&step.act, Action::Connect(at) if at == ip));
        step
    }

    fn refuse(&mut self, ip: &str, kind: Refusal) -> Step {
        self.address(ip);
        self.on(Event::Refused { ip: ip.to_string(), kind, error: "No route to host".to_string() })
    }
}

fn note(step: &Step) -> Option<String> {
    match &step.say {
        Some(Line::Note(text)) => Some(text.clone()),
        Some(Line::Warning(text)) => panic!("{text}"),
        None => None,
    }
}

fn found(ip: &str, v4: bool) -> Found {
    Found { ip: ip.to_string(), v4 }
}

#[test]
fn answers_at_once() {
    let mut run = Run::new();
    run.address("10.0.0.2");
    let step = run.on(Event::Accepted("10.0.0.2".to_string()));
    assert!(matches!(&step.act, Action::Ready(ip) if ip == "10.0.0.2"));
    assert!(step.say.is_none());
}

#[test]
fn stops_before_the_server_is_up() {
    for state in [None, Some("stopped".to_string())] {
        let mut run = Run::new();
        let step = run.on(Event::State(Ok(state)));
        let expected = format!("{} stopped before sshd came up", name());
        assert!(matches!(&step.act, Action::Stopped(m) if *m == expected));
    }
}

#[test]
fn inspection_fails() {
    let mut run = Run::new();
    let step = run.on(Event::State(Err("down".to_string())));
    assert!(matches!(&step.act, Action::Fail(m) if m == "down"));
    let mut run = Run::new();
    run.running();
    let step = run.on(Event::Address(Err("broken".to_string())));
    assert!(matches!(&step.act, Action::Fail(m) if m == "broken"));
}

#[test]
fn changed_address_is_noted() {
    let mut run = Run::new();
    assert_eq!(note(&run.address("10.0.0.2")), None);
    assert_eq!(note(&run.address("10.0.0.2")), None);
    assert_eq!(
        note(&run.address("10.0.0.3")),
        Some("address changed: 10.0.0.2 -> 10.0.0.3".to_string())
    );
}

#[test]
fn barred_after_fifteen_in_a_row() {
    let mut run = Run::new();
    for _ in 0..14 {
        let step = run.refuse("10.0.0.2", Refusal::HostUnreachable);
        assert!(!matches!(step.act, Action::AskInside { .. }));
    }
    // Any other error breaks the run.
    run.refuse("10.0.0.2", Refusal::Other);
    for _ in 0..14 {
        let step = run.refuse("10.0.0.2", Refusal::NetworkUnreachable);
        assert!(!matches!(step.act, Action::AskInside { .. }));
    }
    // An attempt without an address does not.
    run.running();
    run.on(Event::Address(Ok(None)));
    let step = run.refuse("10.0.0.2", Refusal::HostUnreachable);
    match step.act {
        Action::AskInside { ip, error, count } => {
            assert_eq!(ip, "10.0.0.2");
            assert_eq!(error, "No route to host");
            assert_eq!(count, 15);
        }
        _ => panic!("not asked"),
    }
}

#[test]
fn denied_at_once() {
    let mut run = Run::new();
    run.refuse("10.0.0.2", Refusal::HostUnreachable);
    let step = run.refuse("10.0.0.2", Refusal::PermissionDenied);
    assert!(matches!(step.act, Action::AskInside { count: 0, .. }));
}

#[test]
fn confirmed_from_inside() {
    let mut run = Run::new();
    let step = run.on(Event::Answered {
        ip: "10.0.0.2".to_string(),
        error: "No route to host".to_string(),
        count: 15,
        listening: true,
    });
    assert!(matches!(&step.act, Action::Ready(ip) if ip == "10.0.0.2"));
    match step.say {
        Some(Line::Warning(text)) => assert_eq!(
            text,
            format!(
                "{}: warning: still cannot reach 10.0.0.2:22 after 15s (No route to host), but sshd is confirmed listening inside the VM.{}",
                tool(),
                local_network_hint(&terminal())
            )
        ),
        _ => panic!("no warning"),
    }
}

#[test]
fn not_confirmed_from_inside() {
    let mut run = Run::new();
    let step = run.on(Event::Answered {
        ip: "10.0.0.2".to_string(),
        error: "No route to host".to_string(),
        count: 15,
        listening: false,
    });
    let expected =
        format!("cannot reach 10.0.0.2:22: No route to host{}", local_network_hint(&terminal()));
    assert!(matches!(&step.act, Action::Fail(m) if *m == expected));
    assert!(step.say.is_none());
}

#[test]
fn hint_names_the_terminal() {
    let hint = local_network_hint(&terminal());
    assert_eq!(
        hint,
        "\n  The VM is running but unreachable from this process. macOS requires Local Network permission per app, and a terminal inherits it to everything it launches:\n    System Settings -> Privacy & Security -> Local Network -> enable Ghostty\n  A prompt that was dismissed or denied makes these connections fail silently, exactly like this.\n  Quick check from the same terminal:  nc -vz <vm-ip> 22"
    );
    assert!(local_network_hint(&None).contains("-> enable your terminal app\n"));
}

#[test]
fn name_is_resolved_after_five_attempts() {
    let mut run = Run::new();
    for _ in 0..5 {
        let step = run.refuse("10.0.0.2", Refusal::Other);
        assert!(matches!(step.act, Action::Sleep) && step.say.is_none());
        assert!(matches!(run.on(Event::Slept).act, Action::InspectState));
    }
    let step = run.refuse("10.0.0.2", Refusal::Other);
    assert!(matches!(step.act, Action::Resolve));
    // Only IPv4 addresses are tried, in order.
    let step = run.on(Event::Resolved(vec![
        found("fe80::1", false),
        found("10.0.0.8", true),
        found("10.0.0.9", true),
    ]));
    let list = match step.act {
        Action::Try(list) => list,
        _ => panic!("nothing to try"),
    };
    assert_eq!(list, vec!["10.0.0.8".to_string(), "10.0.0.9".to_string()]);
    let step = run.on(Event::Tried { list, accepted: false });
    let list = match step.act {
        Action::Try(list) => list,
        _ => panic!("nothing left to try"),
    };
    assert_eq!(list, vec!["10.0.0.9".to_string()]);
    let step = run.on(Event::Tried { list, accepted: true });
    assert_eq!(note(&step), Some("reached box.container at 10.0.0.9 via DNS".to_string()));
    assert!(matches!(&step.act, Action::Ready(ip) if ip == "10.0.0.9"));
}

#[test]
fn notes_every_five_attempts() {
    let mut run = Run::new();
    for _ in 0..5 {
        run.running();
        let step = run.on(Event::Address(Ok(None)));
        assert!(matches!(step.act, Action::Sleep) && step.say.is_none());
        run.on(Event::Slept);
    }
    run.running();
    assert!(matches!(run.on(Event::Address(Ok(None))).act, Action::Resolve));
    let step = run.on(Event::Resolved(vec![]));
    assert!(matches!(step.act, Action::Sleep));
    assert_eq!(note(&step), Some(format!("waiting for sshd on {} (5 attempts) ...", name())));
    run.on(Event::Slept);
    run.address("10.0.0.2");
    assert!(matches!(run.on(Event::Unusable).act, Action::Resolve));
    let step = run.on(Event::Resolved(vec![found("::1", false)]));
    assert!(matches!(step.act, Action::Sleep) && step.say.is_none());
    for _ in 0..4 {
        run.on(Event::Slept);
    }
    run.refuse("10.0.0.2", Refusal::Other);
    let step = run.on(Event::Tried { list: vec!["10.0.0.9".to_string()], accepted: false });
    assert_eq!(
        note(&step),
        Some("waiting for sshd on 10.0.0.2:22 (10 attempts; last error: No route to host) ...".to_string())
    );
}

#[test]
fn times_out_after_sixty_attempts() {
    let mut run = Run::new();
    for _ in 0..59 {
        assert!(matches!(run.on(Event::Slept).act, Action::InspectState));
    }
    let step = run.on(Event::Slept);
    let expected =
        format!("timed out waiting for sshd on {}{}", name(), local_network_hint(&terminal()));
    assert!(matches!(&step.act, Action::Fail(m) if *m == expected));

    let mut run = Run::new();
    run.refuse("10.0.0.2", Refusal::Other);
    for _ in 0..59 {
        run.on(Event::Slept);
    }
    let step = run.on(Event::Slept);
    let expected = format!(
        "timed out waiting for sshd on 10.0.0.2:22 (last error: No route to host){}",
        local_network_hint(&terminal())
    );
    assert!(matches!(&step.act, Action::Fail(m) if *m == expected));
}

#[test]
fn asked_inside_the_machine() {
    let sb = sandbox();
    let command = sb.listening_command();
    assert_eq!(command.program, "container");
    assert_eq!(
        command.args,
        vec![
            "exec".to_string(),
            name(),
            "sh".to_string(),
            "-c".to_string(),
            LISTENING_SCRIPT.to_string()
        ]
    );
    assert!(LISTENING_SCRIPT.starts_with("awk 'FNR > 1 { split($2, a, \":\"); if (a[2] == \"0016\" && $4 == \"0A\") f = 1 } END"));
    let ended = |success| Outcome::Finished {
        success,
        stdout: String::new(),
        stderr: String::new(),
    };
    assert!(sb.sshd_listening_via_exec(&ended(true)));
    assert!(!sb.sshd_listening_via_exec(&ended(false)));
    assert_eq!(sb.logs_command().args, vec!["logs".to_string(), name()]);
    assert_eq!(sb.dump_logs_or_hint(&ended(true)), None);
    assert_eq!(sb.dump_logs_or_hint(&ended(false)), Some(NO_LOGS.to_string()));
    let missing = Outcome::Unstarted { missing: true, cause: "x".to_string() };
    assert!(!sb.sshd_listening_via_exec(&missing));
    assert_eq!(sb.dump_logs_or_hint(&missing), Some(NO_LOGS.to_string()));
}
