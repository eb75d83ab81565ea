use zed_sandbox::container::{
    address_in, ensure_container, shows_any, state_in, ContainerAction, ContainerEvent,
};
use zed_sandbox::json::{as_str, as_u64, item, key, parse, Json};
use zed_sandbox::network::{
    check_dns, dns_domain, domain_in, domains_command, os_resolver_has, preflight,
    properties_command, serves_domain, ResolverFile,
};
use zed_sandbox::process::{CommandLine, Outcome};
use zed_sandbox::sandbox::Sandbox;
use zed_sandbox::services::{
    ensure_services, require_cli, version_command, warning, ServicesAction, ServicesPhase,
    NOT_INSTALLED, NOT_STARTED,
};

fn owned(list: &[&str]) -> Vec<String> {
    list.iter().map(|s| s.to_string()).collect()
}

fn tool() -> String {
    "CLAUDE_SANDBOX".to_lowercase().replace('_', "-")
}

fn agent() -> String {
    tool().split('-').next().unwrap().to_string()
}

fn sandbox() -> Sandbox {
    match Sandbox::new(
        "/Users/ann".to_string(),
        "ann".to_string(),
        None,
        "/Users/ann/Projects/my-app".to_string(),
    ) {
        Ok(sb) => sb,
        Err(message) => panic!("{message}"),
    }
}

fn name() -> String {
    format!("{}-my-app-c08035", tool())
}

fn good(stdout: &str) -> Outcome {
    Outcome::Finished { success: true, stdout: stdout.to_string(), stderr: String::new() }
}

fn bad(stderr: &str) -> Outcome {
    Outcome::Finished { success: false, stdout: String::new(), stderr: stderr.to_string() }
}

fn unstarted(missing: bool) -> Outcome {
    Outcome::Unstarted { missing, cause: "boom".to_string() }
}

fn is(command: &CommandLine, program: &str, args: &[&str]) -> bool {
    command.program == program && command.args == owned(args)
}

const RUNNING: &str = r#"[{"status": {"state": "running", "networks": [{"ipv4Address": "192.168.64.7/24"}]}}]"#;

#[test]
fn json_documents_are_read() {
    let doc = match parse(r#"{"a": [1, "x", null, true, -3, 1.5], "b": {"c": 18446744073709551615}, "a2": 1}"#) {
        Ok(doc) => doc,
        Err(message) => panic!("{message}"),
    };
    let list = key(Some(&doc), "a");
    assert_eq!(as_u64(item(list, 0)), Some(1));
    assert_eq!(as_str(item(list, 1)).map(|s| s.as_str()), Some("x"));
    assert!(matches!(item(list, 2), Some(Json::Null)));
    assert!(matches!(item(list, 3), Some(Json::Bool(true))));
    assert_eq!(as_u64(item(list, 4)), None);
    assert_eq!(as_u64(item(list, 5)), None);
    assert!(matches!(item(list, 5), Some(Json::Number(None))));
    assert!(matches!(item(list, 6), None | Some(Json::Null)));
    assert_eq!(as_u64(key(key(Some(&doc), "b"), "c")), Some(u64::MAX));
    assert!(doc.get("b").is_some());
    assert!(doc.get("z").is_none());
    assert_eq!(as_str(key(key(Some(&doc), "z"), "y")), None);
}

#[test]
fn later_members_count() {
    let doc = match parse(r#"{"a": 1, "a": 2}"#) {
        Ok(doc) => doc,
        Err(message) => panic!("{message}"),
    };
    assert_eq!(as_u64(key(Some(&doc), "a")), Some(2));
}

#[test]
fn broken_json_says_why() {
    match parse("{") {
        Ok(_) => panic!("parsed"),
        Err(message) => assert_eq!(message, "EOF while parsing an object at line 1 column 1"),
    }
}

#[test]
fn captured_output() {
    let command = CommandLine { program: "p".to_string(), args: owned(&["a", "b"]) };
    assert_eq!(command.capture(&good("out\n")), Ok("out\n".to_string()));
    assert_eq!(command.capture(&bad("  no \n")), Err("p a b failed: no".to_string()));
    assert_eq!(command.capture(&unstarted(true)), Err("failed to run p: boom".to_string()));
    assert_eq!(command.passthrough(&good("")), Ok(()));
    assert_eq!(command.passthrough(&bad("x")), Err("p a b failed".to_string()));
    assert_eq!(command.passthrough(&unstarted(false)), Err("failed to run p: boom".to_string()));
    assert!(good("").succeeded() && !bad("").succeeded() && !unstarted(true).succeeded());
    assert_eq!(good("x").written(), "x");
    assert_eq!(bad("x").written(), "");
    assert_eq!(unstarted(false).written(), "");
}

#[test]
fn runtime_must_be_installed() {
    assert!(is(&version_command(), "container", &["--version"]));
    assert_eq!(require_cli(&good("1.2.2")), Ok(()));
    assert_eq!(require_cli(&unstarted(true)), Err(NOT_INSTALLED.to_string()));
    assert!(NOT_INSTALLED.ends_with("https://github.com/apple/container"));
    assert_eq!(require_cli(&unstarted(false)), Err("failed to run `container`: boom".to_string()));
    assert_eq!(
        require_cli(&bad(" dyld \n")),
        Err("`container --version` failed: dyld\n  the Apple `container` CLI looks broken; reinstall with: brew install container".to_string())
    );
}

#[test]
fn services_are_started_once() {
    assert!(is(&ServicesPhase::Status.command_line(), "container", &["system", "status"]));
    assert!(is(&ServicesPhase::Start.command_line(), "container", &["system", "start"]));
    assert!(is(&ServicesPhase::Recheck.command_line(), "container", &["system", "status"]));

    let next = |phase, outcome: &Outcome| ensure_services(phase, outcome);
    assert!(matches!(next(ServicesPhase::Status, &good("")), ServicesAction::Ready));
    assert!(matches!(
        next(ServicesPhase::Status, &bad("")),
        ServicesAction::Run(ServicesPhase::Start)
    ));
    assert!(matches!(
        next(ServicesPhase::Status, &unstarted(true)),
        ServicesAction::Fail(m) if m == NOT_INSTALLED
    ));
    assert!(matches!(
        next(ServicesPhase::Status, &unstarted(false)),
        ServicesAction::Fail(m) if m == "failed to run `container`: boom"
    ));
    assert!(matches!(
        next(ServicesPhase::Start, &good("")),
        ServicesAction::Run(ServicesPhase::Recheck)
    ));
    assert!(matches!(
        next(ServicesPhase::Start, &bad("")),
        ServicesAction::Fail(m) if m == NOT_STARTED
    ));
    assert!(matches!(next(ServicesPhase::Recheck, &good("")), ServicesAction::Ready));
    assert!(matches!(
        next(ServicesPhase::Recheck, &unstarted(true)),
        ServicesAction::Fail(m) if m == NOT_STARTED
    ));
    assert_eq!(warning("x"), format!("{}: warning: x", tool()));
}

#[test]
fn domain_of_the_containers() {
    assert!(is(&properties_command(), "container", &["system", "property", "ls"]));
    assert_eq!(dns_domain(&bad("")), "container");
    assert_eq!(dns_domain(&good("[dns]\ndomain = \"test\"\n")), "test");
    assert_eq!(domain_in(""), "container");
    assert_eq!(domain_in("[build]\ndomain = \"no\"\n[dns]\n  domain = \"vm.local\" \n"), "vm.local");
    assert_eq!(domain_in("domain = \"no\"\n"), "container");
    assert_eq!(domain_in("[dns]\ndomain = \"\"\ndomain = two\n"), "two");
    assert_eq!(domain_in("[dns]\n[other]\ndomain = \"no\"\n"), "container");
    assert_eq!(domain_in("[dns]\ndomains = \"no\"\n domain=\"a=b\"\n"), "a=b");
}

fn file(name: &str, body: Option<&str>) -> ResolverFile {
    ResolverFile { name: name.to_string(), body: body.map(String::from) }
}

#[test]
fn resolver_files() {
    assert!(os_resolver_has("container", &vec![file("container", None)]));
    assert!(os_resolver_has("container", &vec![file("x", Some("nameserver 1\ndomain container\n"))]));
    assert!(os_resolver_has("container", &vec![file("y", None), file("x", Some("search a container"))]));
    assert!(!os_resolver_has("container", &vec![]));
    assert!(!os_resolver_has("container", &vec![file("x", Some("nameserver container\n"))]));
    assert!(!os_resolver_has("container", &vec![file("x", Some("domain containers\n"))]));
    assert!(!os_resolver_has("domain", &vec![file("x", Some("domain other\n"))]));
}

#[test]
fn dns_is_checked_on_both_sides() {
    let tool = tool();
    assert!(is(&domains_command(), "container", &["system", "dns", "list"]));
    assert!(serves_domain("DOMAIN\n container x\n", "container"));
    assert!(!serves_domain("x container\n", "container"));
    assert!(!serves_domain("", "container"));

    let listing = good("container\n");
    let files = vec![file("container", None)];
    assert_eq!(check_dns("container", &listing, &files), Ok(()));
    assert_eq!(preflight("container", &listing, &files), None);

    let unserved = format!("`container` is not serving the local DNS domain `container`, which {tool} needs to reach VMs by name.\n  fix (needs admin):  sudo container system dns create container\n  then verify:        container system dns list");
    assert_eq!(check_dns("container", &bad(""), &files), Err(unserved.clone()));
    assert_eq!(
        preflight("container", &unstarted(true), &vec![]),
        Some(format!("{tool}: warning: {unserved}"))
    );

    let unresolved = "macOS is not set up to resolve `.container` names: no matching entry in /etc/resolver.\n  `container` writes that file when the domain is created, so re-create it (needs admin):\n    sudo container system dns delete container\n    sudo container system dns create container";
    assert_eq!(check_dns("container", &listing, &vec![]), Err(unresolved.to_string()));
    assert_eq!(
        preflight("container", &listing, &vec![]),
        Some(format!("{tool}: warning: {unresolved}"))
    );
}

#[test]
fn state_of_a_container() {
    let sb = sandbox();
    assert!(is(&sb.inspect_command(), "container", &["inspect", &name()]));
    assert_eq!(sb.state(&good(RUNNING)), Ok(Some("running".to_string())));
    assert_eq!(sb.state(&good("[]")), Ok(None));
    assert_eq!(sb.state(&good("[null]")), Ok(None));
    // A container that is there without a state does not pass for a missing one.
    for shown in [r#"[{"status":{}}]"#, r#"[{"status": {"state": 3}}]"#, "[{}]", "[7]"] {
        assert_eq!(
            sb.state(&good(shown)),
            Err(format!("container inspect {} shows no state", name())),
            "{shown}"
        );
    }
    assert_eq!(sb.state(&bad("Error: container not found\n")), Ok(None));
    assert_eq!(
        sb.state(&bad(" daemon down\n")),
        Err(format!("container inspect {} failed: daemon down", name()))
    );
    assert_eq!(
        sb.state(&unstarted(false)),
        Err("failed to run container inspect: boom".to_string())
    );
    assert_eq!(
        sb.state(&good("nonsense")),
        Err("expected ident at line 1 column 2".to_string())
    );
}

#[test]
fn address_of_a_container() {
    let sb = sandbox();
    assert_eq!(sb.current_ip(&good(RUNNING)), Ok(Some("192.168.64.7".to_string())));
    assert_eq!(sb.current_ip(&good("[{}]")), Ok(None));
    let with = |ip: &str| format!(r#"[{{"status": {{"networks": [{{"ipv4Address": "{ip}"}}]}}}}]"#);
    assert_eq!(sb.current_ip(&good(&with("/24"))), Ok(None));
    assert_eq!(sb.current_ip(&good(&with(""))), Ok(None));
    assert_eq!(sb.current_ip(&good(&with("10.0.0.1"))), Ok(Some("10.0.0.1".to_string())));
    assert_eq!(
        sb.current_ip(&bad("gone")),
        Err(format!("container inspect {} failed: gone", name()))
    );
    assert!(sb.current_ip(&good("")).is_err());
}

#[test]
fn plain_documents_of_an_inspection() {
    let status = |members: Vec<(String, Json)>| {
        Json::Array(vec![Json::Object(vec![("status".to_string(), Json::Object(members))])])
    };
    let doc = status(vec![("state".to_string(), Json::Text("stopped".to_string()))]);
    assert_eq!(state_in(&doc), Some("stopped".to_string()));
    assert_eq!(address_in(&doc), None);
    let network = Json::Object(vec![(
        "ipv4Address".to_string(),
        Json::Text("10.1.2.3/16".to_string()),
    )]);
    let doc = status(vec![("networks".to_string(), Json::Array(vec![network]))]);
    assert_eq!(state_in(&doc), None);
    assert_eq!(address_in(&doc), Some("10.1.2.3".to_string()));
    assert_eq!(state_in(&Json::Null), None);
    assert!(shows_any(&doc));
    assert!(!shows_any(&Json::Null));
    assert!(!shows_any(&Json::Array(vec![])));
    assert!(!shows_any(&Json::Array(vec![Json::Null])));
}

#[test]
fn only_a_running_container_is_reused() {
    let state = |s: &str| ContainerEvent::State(Some(s.to_string()));
    assert!(ensure_container(&state("running")) == ContainerAction::Reuse);
    assert!(ensure_container(&state("stopped")) == ContainerAction::Destroy);
    assert!(ensure_container(&state("Running")) == ContainerAction::Destroy);
    assert!(ensure_container(&ContainerEvent::State(None)) == ContainerAction::CheckImage);
    assert!(ensure_container(&ContainerEvent::Destroyed) == ContainerAction::CheckImage);
    assert!(ensure_container(&ContainerEvent::Image(false)) == ContainerAction::BuildImage);
    assert!(ensure_container(&ContainerEvent::Image(true)) == ContainerAction::Create);
    assert!(ensure_container(&ContainerEvent::Built) == ContainerAction::Create);
}

#[test]
fn stopping_and_deleting() {
    let sb = sandbox();
    let running = Some("running".to_string());
    let (command, message) = sb.stop(&running);
    assert!(is(&command.unwrap(), "container", &["stop", &name()]));
    assert_eq!(
        message,
        format!("stopped {} (it deletes itself; reopen the project to recreate)", name())
    );
    let (command, message) = sb.stop(&None);
    assert!(command.is_none());
    assert_eq!(message, format!("{} does not exist (idle VMs delete themselves)", name()));

    let (commands, message) = sb.remove(&running);
    assert_eq!(commands.len(), 2);
    assert!(is(&commands[0], "container", &["stop", &name()]));
    assert!(is(&commands[1], "container", &["rm", &name()]));
    assert_eq!(message, format!("deleted {}", name()));
    let (commands, message) = sb.remove(&None);
    assert_eq!(commands.len(), 2);
    assert_eq!(message, format!("nothing to delete: {} does not exist", name()));
    assert_eq!(sb.destroy().len(), 2);
}

#[test]
fn image_is_looked_for() {
    let sb = sandbox();
    let image = format!("{}:ann", tool());
    assert!(is(&sb.image_command(), "container", &["image", "inspect", &image]));
    assert!(sb.have_image(&good("[]")));
    assert!(!sb.have_image(&bad("not found")));
    assert!(!sb.have_image(&unstarted(true)));
}

#[test]
fn containers_are_created() {
    let sb = sandbox();
    let project = "/Users/ann/Projects/my-app:/home/ann/Projects/my-app";
    let config = format!("/Users/ann/.{}:/home/ann/.{}", tool(), agent());
    let image = format!("{}:ann", tool());
    let name = name();
    let made = |idle: Option<&str>, debug| match sb.run_command(&idle.map(String::from), debug) {
        Ok(command) => command,
        Err(message) => panic!("{message}"),
    };
    let start = ["run", "-d", "--name", &name, "--cap-add", "CAP_NET_ADMIN"];
    let end = ["-v", project, "-v", &config, &image];
    assert!(is(&made(None, false), "container", &[&start[..], &["--rm"], &end[..]].concat()));
    assert!(is(&made(None, true), "container", &[&start[..], &end[..]].concat()));
    assert!(is(
        &made(Some("0"), false),
        "container",
        &[&start[..], &["--rm", "-e", "IDLE_TIMEOUT=0"], &end[..]].concat()
    ));
    assert!(is(
        &made(Some("+90"), true),
        "container",
        &[&start[..], &["-e", "IDLE_TIMEOUT=+90"], &end[..]].concat()
    ));
    // The first colon of the mount parts the two paths.
    assert_eq!(
        project.split_once(':'),
        Some((sb.abs.as_str(), sb.target.as_str()))
    );
    for idle in ["", "ten", "-1", " 1", "18446744073709551616"] {
        match sb.run_command(&Some(idle.to_string()), false) {
            Ok(_) => panic!("{idle}"),
            Err(message) => assert_eq!(
                message,
                format!("CLAUDE_SANDBOX_IDLE must be a whole number of seconds, got: {idle}")
            ),
        }
    }
    assert_eq!(
        sb.created_message(),
        format!("created {name} (/Users/ann/Projects/my-app -> /home/ann/Projects/my-app)")
    );
}
