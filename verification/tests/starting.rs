use zed_sandbox::args::Cmd;
use zed_sandbox::image::{authorized_keys, context_name, is_key_file};
use zed_sandbox::json::Json;
use zed_sandbox::launch::{failure, hand_off_failure, up, UpStep};
use zed_sandbox::process::{CommandLine, Outcome};
use zed_sandbox::sandbox::Sandbox;
use zed_sandbox::seed::{
    copy_failure, copy_tree, expiry_in, keychain_command, replaces, seeded_entries, token_expiry,
    Copying, Kind, Seeding, Standing,
};

fn owned(list: &[&str]) -> Vec<String> {
    list.iter().map(|s| s.to_string()).collect()
}

fn tool() -> String {
    "CLAUDE_SANDBOX".to_lowercase().replace('_', "-")
}

fn agent() -> String {
    tool().split('-').next().unwrap().to_string()
}

fn title() -> String {
    let mut s = agent();
    s[..1].make_ascii_uppercase();
    s
}

fn sandbox() -> Sandbox {
    match Sandbox::new(
        "/Users/ann".to_string(),
        "ann".to_string(),
        Some("/st".to_string()),
        "/Users/ann/Projects/my-app".to_string(),
    ) {
        Ok(sb) => sb,
        Err(message) => panic!("{message}"),
    }
}

fn is(command: &CommandLine, program: &str, args: &[&str]) -> bool {
    command.program == program && command.args == owned(args)
}

fn good(stdout: &str) -> Outcome {
    Outcome::Finished { success: true, stdout: stdout.to_string(), stderr: String::new() }
}

fn bad() -> Outcome {
    Outcome::Finished { success: false, stdout: String::new(), stderr: "none".to_string() }
}

#[test]
fn keys_stand_on_one_line() {
    assert_eq!(authorized_keys(&owned(&[])), "");
    assert_eq!(authorized_keys(&owned(&["ssh-ed25519 A a\n"])), "ssh-ed25519 A a");
    let keys = authorized_keys(&owned(&["k1\n", "\n k2 \r\n\n\tk3", "", "   \n"]));
    assert_eq!(keys, "k1\\nk2\\nk3");
    assert!(!keys.contains('\n'));
}

#[test]
fn key_files_by_name() {
    for name in ["id_ed25519.pub", "id_rsa.pub", "id_.pub"] {
        assert!(is_key_file(name), "{name}");
    }
    for name in ["id_ed25519", "known_hosts", "xid_rsa.pub", "id_rsa.pub.bak", "ID_rsa.pub", "", "id.pub"] {
        assert!(!is_key_file(name), "{name}");
    }
}

#[test]
fn image_is_built_for_the_account() {
    let sb = sandbox();
    let image = format!("{}:ann", tool());
    assert!(is(
        &sb.build_image(&owned(&["k1\nk2\n"]), "/tmp/ctx"),
        "container",
        &[
            "build",
            "-t",
            &image,
            "--build-arg",
            "SSH_PUBKEY=k1\\nk2",
            "--build-arg",
            "USERNAME=ann",
            "/tmp/ctx"
        ]
    ));
    assert_eq!(sb.building_message(), format!("building {image} ..."));
    assert_eq!(context_name(4711), format!("{}-ctx-4711", tool()));
}

#[test]
fn key_is_made_once() {
    let sb = sandbox();
    assert_eq!(sb.public_key(), "/st/id_ed25519.pub");
    assert!(sb.ensure_key(true).is_none());
    let (command, message) = sb.ensure_key(false).unwrap();
    assert!(is(
        &command,
        "ssh-keygen",
        &["-q", "-t", "ed25519", "-N", "", "-C", &tool(), "-f", "/st/id_ed25519"]
    ));
    assert_eq!(message, "generated ssh key /st/id_ed25519");
}

#[test]
fn expiry_of_tokens() {
    assert_eq!(token_expiry(r#"{"claudeAiOauth": {"expiresAt": 1750000000000}}"#), 1750000000000);
    assert_eq!(token_expiry(r#"{"expiresAt": 5}"#), 5);
    assert_eq!(token_expiry(r#"{"claudeAiOauth": {}, "expiresAt": 5}"#), 0);
    assert_eq!(token_expiry(r#"{"claudeAiOauth": null, "expiresAt": 5}"#), 0);
    assert_eq!(token_expiry(r#"{"expiresAt": "5"}"#), 0);
    assert_eq!(token_expiry(r#"{"expiresAt": -5}"#), 0);
    assert_eq!(token_expiry("[1]"), 0);
    assert_eq!(token_expiry(""), 0);
    assert_eq!(token_expiry("not json"), 0);
}

#[test]
fn expiry_of_plain_documents() {
    let at = |n| ("expiresAt".to_string(), Json::Number(Some(n)));
    assert_eq!(expiry_in(&Json::Object(vec![at(9)])), 9);
    let inner = Json::Object(vec![at(3)]);
    let doc = Json::Object(vec![("claudeAiOauth".to_string(), inner), at(9)]);
    assert_eq!(expiry_in(&doc), 3);
    assert_eq!(expiry_in(&Json::Array(vec![])), 0);
}

#[test]
fn only_a_longer_lived_token_replaces_another() {
    assert!(replaces(false, true, 1, 2));
    assert!(!replaces(false, true, 2, 2));
    assert!(!replaces(false, true, 3, 2));
    assert!(replaces(true, true, 3, 2));
    assert!(replaces(false, false, 3, 2));
}

#[test]
fn credentials_are_seeded() {
    let sb = sandbox();
    let service = format!("{} Code-credentials", title());
    assert!(is(
        &keychain_command(),
        "security",
        &["find-generic-password", "-s", &service, "-w"]
    ));
    let dest = format!("/Users/ann/.{}/.credentials.json", tool());
    assert_eq!(sb.credentials_file(), dest);

    let host = r#"{"expiresAt": 20}"#;
    let written = |outcome: &Outcome, present, force, theirs: &str| match sb
        .seed_credentials(outcome, present, false, force, theirs)
    {
        Seeding::Write { unlink, content, message } => {
            assert!(!unlink);
            assert_eq!(message, format!("seeded {} credentials into {dest}", title()));
            Some(content)
        }
        _ => None,
    };
    let told = good(&format!(" {host} \n\n"));
    assert_eq!(written(&told, false, false, ""), Some(format!(" {host}")));
    assert_eq!(written(&told, true, false, r#"{"expiresAt": 19}"#), Some(format!(" {host}")));
    assert_eq!(written(&told, true, false, "garbage"), Some(format!(" {host}")));
    assert_eq!(written(&told, true, true, r#"{"expiresAt": 99}"#), Some(format!(" {host}")));
    for theirs in [r#"{"expiresAt": 20}"#, r#"{"expiresAt": 21}"#] {
        assert!(matches!(sb.seed_credentials(&told, true, false, false, theirs), Seeding::Keep));
    }
    // A link in the place of the copy goes first, also one that leads nowhere.
    for present in [true, false] {
        assert!(matches!(
            sb.seed_credentials(&told, present, true, false, ""),
            Seeding::Write { unlink: true, .. }
        ));
    }
    // Two that cannot be read: the copy stays.
    assert!(matches!(sb.seed_credentials(&good("?"), true, false, false, "!"), Seeding::Keep));
}

#[test]
fn no_credentials_no_change() {
    let sb = sandbox();
    assert!(matches!(sb.seed_credentials(&bad(), true, false, true, ""), Seeding::Keep));
    match sb.seed_credentials(&bad(), false, true, true, "") {
        Seeding::Warn(text) => assert_eq!(
            text,
            format!(
                "{}: warning: no {} Code credentials in the login keychain; run `{} login` inside the VM (or on the host first)",
                tool(),
                title(),
                agent()
            )
        ),
        _ => panic!("no warning"),
    }
}

#[test]
fn only_listed_entries_are_copied() {
    let memory = format!("{}.md", agent().to_uppercase());
    let names = owned(&[
        "settings.json",
        &memory,
        "agents",
        "commands",
        "skills",
        "output-styles",
        "plugins",
    ]);
    assert_eq!(seeded_entries(), names);
    let sb = sandbox();
    let seeds = sb.seed_claude_config();
    assert_eq!(seeds.len(), names.len());
    for (seed, name) in seeds.iter().zip(&names) {
        assert_eq!(&seed.name, name);
        assert_eq!(seed.from, format!("/Users/ann/.{}/{name}", agent()));
        assert_eq!(seed.to, format!("/Users/ann/.{}/{name}", tool()));
    }
    assert_eq!(
        copy_failure("agents", "disk full"),
        "copying agents into the sandbox config: disk full"
    );
}

#[test]
fn own_configuration_is_not_what_is_mounted() {
    let sb = sandbox();
    assert_ne!(sb.claude_dir, format!("/Users/ann/.{}", agent()));
}

#[test]
fn trees_are_copied_by_kind() {
    let names = owned(&["a", "b.md"]);
    for there in [Standing::Nothing, Standing::Other] {
        match copy_tree(Kind::Directory, "/s", "/d/", there, &names) {
            Copying::Descend(list) => {
                let expected: Vec<(String, String)> = vec![
                    ("/s/a".to_string(), "/d/a".to_string()),
                    ("/s/b.md".to_string(), "/d/b.md".to_string()),
                ];
                assert_eq!(list, expected);
            }
            _ => panic!("not descended"),
        }
        assert!(matches!(copy_tree(Kind::File, "/s", "/d", there, &vec![]), Copying::CopyFile));
        assert!(matches!(copy_tree(Kind::Other, "/s", "/d", there, &vec![]), Copying::Skip));
    }
}

#[test]
fn links_are_not_copied_through() {
    let there = Standing::Link;
    for kind in [Kind::File, Kind::Directory] {
        assert!(matches!(copy_tree(kind, "/s", "/d", there, &owned(&["a"])), Copying::Unlink));
    }
    assert!(matches!(copy_tree(Kind::Other, "/s", "/d", there, &vec![]), Copying::Skip));
}

#[test]
fn steps_of_a_start() {
    let walk = |rebuild, found| {
        let mut all: Vec<UpStep> = vec![UpStep::Preflight];
        while let Some(next) = up(all[all.len() - 1], rebuild, found) {
            all.push(next);
        }
        all
    };
    let start = [UpStep::Preflight, UpStep::Key, UpStep::Seed];
    let end = [UpStep::Container, UpStep::Wait, UpStep::Config, UpStep::HandOff];
    assert!(walk(false, true) == [&start[..], &end[..]].concat());
    assert!(
        walk(true, false)
            == [&start[..], &[UpStep::Rebuild, UpStep::Inspect], &end[..]].concat()
    );
    assert!(
        walk(true, true)
            == [&start[..], &[UpStep::Rebuild, UpStep::Inspect, UpStep::Recreate], &end[..]]
                .concat()
    );
}

#[test]
fn handing_over() {
    let sb = sandbox();
    let host = sb.host("container");
    assert_eq!(host, format!("{}-my-app-c08035.container", tool()));
    let (command, message) = sb.hand_off(Cmd::Shell, &host, &owned(&["ls", "-l"]));
    assert!(is(&command, "ssh", &[&host, "ls", "-l"]));
    assert_eq!(message, None);
    let (command, message) = sb.hand_off(Cmd::Up, &host, &vec![]);
    let url = format!("ssh://ann@{host}/home/ann/Projects/my-app");
    assert!(is(&command, "zed", &[&url]));
    assert_eq!(message, Some(format!("opening zed on {host} at /home/ann/Projects/my-app")));
    assert_eq!(hand_off_failure("ssh", "boom"), "failed to exec ssh: boom");
    assert_eq!(failure("boom"), format!("{}: boom", tool()));
    assert_eq!(
        sb.recreating_message(),
        format!("recreating {} with the new image", sb.name)
    );
    // The host is the one that the ssh configuration pins.
    let config = sb.ensure_ssh_config("", "container", "192.168.64.2").unwrap();
    assert!(config.contains(&format!("\nHost {host} {}\n  HostName 192.168.64.2\n", sb.name)));
    assert!(config.contains(&format!("\nHost {0}-*.container {0}-*\n", tool())));
}
