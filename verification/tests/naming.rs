use zed_sandbox::args::Cmd;
use zed_sandbox::names::{
    agent_caps_name, agent_name, agent_title_name, expanded, lower, tool_name, ENV_PREFIX,
};
use zed_sandbox::path::{
    absolutize_missing, base_name, existing_ancestor, join_path, path_components, reattach, Place,
    Search, LINK_LIMIT,
};
use zed_sandbox::sandbox::{base_name_of, hash_digits, locate, Locate, Sandbox};
use zed_sandbox::user::{
    account_name, account_source, guest_user, host_user, id_command, system_user, UserSource,
};
use zed_sandbox::process::Outcome;

fn owned(list: &[&str]) -> Vec<String> {
    list.iter().map(|s| s.to_string()).collect()
}

fn tool() -> String {
    ENV_PREFIX.to_lowercase().replace('_', "-")
}

fn sandbox(abs: &str) -> Sandbox {
    match Sandbox::new("/Users/ann".to_string(), "ann".to_string(), None, abs.to_string()) {
        Ok(sb) => sb,
        Err(message) => panic!("{message}"),
    }
}

fn refused(abs: &str) -> String {
    match Sandbox::new("/Users/ann".to_string(), "ann".to_string(), None, abs.to_string()) {
        Ok(sb) => panic!("{}", sb.name),
        Err(message) => message,
    }
}

#[test]
fn names_come_from_the_environment_prefix() {
    let tool = tool();
    assert_eq!(ENV_PREFIX, "CLAUDE_SANDBOX");
    assert_eq!(tool_name(), tool);
    assert_eq!(tool_name().len(), 14);
    let agent = tool.split('-').next().unwrap().to_string();
    assert_eq!(agent_name(), agent);
    assert_eq!(agent_caps_name(), agent.to_uppercase());
    let mut title = agent.clone();
    title[..1].make_ascii_uppercase();
    assert_eq!(agent_title_name(), title);
    assert_eq!(
        expanded("a@b%c&d^e"),
        format!("a{tool}b{agent}c{title}d{}e", agent.to_uppercase())
    );
    assert_eq!(expanded(""), "");
}

#[test]
fn lower_case_is_ascii_only() {
    assert_eq!(lower('A'), 'a');
    assert_eq!(lower('Z'), 'z');
    assert_eq!(lower('@'), '@');
    assert_eq!(lower('['), '[');
    assert_eq!(lower('Ä'), 'Ä');
}

#[test]
fn container_name_has_base_and_hash() {
    let sb = sandbox("/Users/ann/Projects/my-app");
    assert_eq!(sb.name, format!("{}-my-app-c08035", tool()));
    assert_eq!(sb.target, "/home/ann/Projects/my-app");
    assert_eq!(sb.image, format!("{}:ann", tool()));
    assert_eq!(sb.state_dir, format!("/Users/ann/.config/{}", tool()));
    assert_eq!(sb.key, format!("/Users/ann/.config/{}/id_ed25519", tool()));
    assert_eq!(sb.ssh_conf, format!("/Users/ann/.config/{}/ssh_config", tool()));
    assert_eq!(sb.claude_dir, format!("/Users/ann/.{}", tool()));
    assert_eq!(sb.abs, "/Users/ann/Projects/my-app");
    assert_eq!(sb.home, "/Users/ann");
    assert_eq!(sb.user, "ann");
}

#[test]
fn state_directory_can_be_overridden() {
    let sb = match Sandbox::new(
        "/Users/ann".to_string(),
        "bob".to_string(),
        Some("/srv/state".to_string()),
        "/Users/ann/Projects/my-app".to_string(),
    ) {
        Ok(sb) => sb,
        Err(message) => panic!("{message}"),
    };
    assert_eq!(sb.key, "/srv/state/id_ed25519");
    assert_eq!(sb.ssh_conf, "/srv/state/ssh_config");
    // The name depends on the path alone, the image on the account.
    assert_eq!(sb.name, sandbox("/Users/ann/Projects/my-app").name);
    assert_eq!(sb.image, format!("{}:bob", tool()));
    assert_ne!(sb.image, sandbox("/Users/ann/Projects/my-app").image);
}

#[test]
fn same_directory_name_elsewhere_gets_another_container() {
    let here = sandbox("/Users/ann/Projects/my-app");
    let there = sandbox("/private/tmp/my-app");
    assert_eq!(there.name, format!("{}-my-app-2e3fc6", tool()));
    assert_ne!(here.name, there.name);
    assert_eq!(here.target, there.target);
}

#[test]
fn directory_names_are_sanitized() {
    assert_eq!(
        sandbox("/Users/ann/Projects/My App!").name,
        format!("{}-my-app-3ae0ab", tool())
    );
    assert_eq!(sandbox("/srv/Über Café").name, format!("{}-ber-caf-aee599", tool()));
    let long = format!("/x/{}", "a".repeat(50));
    assert_eq!(sandbox(&long).name, format!("{}-{}-51ead1", tool(), "a".repeat(40)));
    assert_eq!(base_name_of("--x--"), "x");
    assert_eq!(base_name_of(&format!("{}-{}", "a".repeat(39), "b".repeat(9))), "a".repeat(39));
    assert_eq!(base_name_of("---"), "");
    assert_eq!(base_name_of("a_b.c"), "a-b-c");
}

#[test]
fn every_name_is_a_dns_label() {
    for abs in ["/a", "/x/A.B.C", "/y/ünï", "/z/aaaaaaaaaaaaaaaaaaaaaaaaaaaaaaaaaaaaaaa-b-c-d"] {
        let name = sandbox(abs).name;
        assert!(name.len() <= 63);
        assert!(name.chars().all(|c| c.is_ascii_lowercase() || c.is_ascii_digit() || c == '-'));
        assert!(!name.starts_with('-') && !name.ends_with('-'));
    }
}

#[test]
fn paths_that_cannot_have_a_machine() {
    assert_eq!(
        refused("/srv/a:b"),
        "project path contains ':', which the container -v mount syntax cannot express: /srv/a:b"
    );
    assert_eq!(
        refused("/srv:x/a"),
        "project path contains ':', which the container -v mount syntax cannot express: /srv:x/a"
    );
    assert_eq!(refused("/srv/---"), "cannot derive a name from: /srv/---");
    assert_eq!(refused("/"), "cannot derive a name from: /");
    assert_eq!(refused("/srv/.."), "cannot derive a name from: /srv/..");
}

#[test]
fn digits_of_a_digest() {
    let mut digest = [0u8; 16];
    digest[0] = 0xc0;
    digest[1] = 0x0f;
    digest[2] = 0x9a;
    digest[3] = 0xff;
    assert_eq!(hash_digits(&digest), "c00f9a");
}

#[test]
fn assembled_from_a_given_digest() {
    let sb = Sandbox::assemble(
        "/h".to_string(),
        "u".to_string(),
        None,
        "/h/p".to_string(),
        "p",
        &[0xab; 16],
    );
    assert_eq!(sb.name, format!("{}-p-ababab", tool()));
    assert_eq!(sb.target, "/home/u/Projects/p");
}

#[test]
fn missing_directories_only_for_stop_and_rm() {
    assert!(matches!(locate("d", Cmd::Up, true), Ok(Locate::Resolve)));
    assert!(matches!(locate("d", Cmd::Rm, true), Ok(Locate::Resolve)));
    assert!(matches!(locate("d", Cmd::Stop, false), Ok(Locate::Absolutize)));
    assert!(matches!(locate("d", Cmd::Rm, false), Ok(Locate::Absolutize)));
    for cmd in [Cmd::Up, Cmd::Shell] {
        match locate("some/dir", cmd, false) {
            Ok(_) => panic!("located"),
            Err(message) => assert_eq!(message, "not a directory: some/dir"),
        }
    }
}

#[test]
fn last_component_of_a_path() {
    let name = |p: &str| base_name(p);
    assert_eq!(name("/a/b"), Some("b".to_string()));
    assert_eq!(name("/a/b/"), Some("b".to_string()));
    assert_eq!(name("/"), None);
    assert_eq!(name(""), None);
    assert_eq!(name("/a/.."), None);
    for p in ["/a/b", "/a/b/", "/", "", "/a/..", "x", "a//b", "a/b/.", "/a/b//"] {
        let expected =
            std::path::Path::new(p).file_name().map(|n| n.to_string_lossy().into_owned());
        assert_eq!(name(p), expected, "{p}");
    }
}

#[test]
fn joined_paths() {
    for (base, rel) in
        [("/a", "b"), ("/a/", "b"), ("", "b"), ("/a", "/b"), ("/a", "b/c"), ("/", "b"), ("/a", "")]
    {
        let expected = std::path::Path::new(base).join(rel).to_string_lossy().into_owned();
        assert_eq!(join_path(base, rel), expected, "{base} {rel}");
    }
}

fn places(list: &[bool]) -> Vec<Place> {
    list.iter().map(|e| Place { exists: *e, link: None }).collect()
}

fn found(components: &[&str], list: &[bool]) -> usize {
    match absolutize_missing(&owned(components), &places(list), 0) {
        Search::Found(k) => k,
        Search::Follow(next) => panic!("{next:?}"),
        Search::Back => panic!("went back"),
    }
}

#[test]
fn missing_tail_is_put_back() {
    let names = ["tmp", "gone", "deeper"];
    let components = owned(&names);
    assert_eq!(found(&names, &[true, true, false, false]), 1);
    assert_eq!(reattach("/private/tmp", &components, 1), "/private/tmp/gone/deeper");
    assert_eq!(found(&names, &[true, true, true, true]), 3);
    assert_eq!(reattach("/private/tmp/gone/deeper", &components, 3), "/private/tmp/gone/deeper");
    // The root ends the search, and so does a component that cannot be put back.
    assert_eq!(found(&names, &[false, false, false, false]), 0);
    assert_eq!(found(&["gone", "..", "x"], &[true, false, false, false]), 2);
}

/// Looks a path up where some directories exist and some paths are links.
fn searched(path: &str, dirs: &[&str], links: &[(&str, &str)]) -> String {
    let text = |components: &[String]| format!("/{}", components.join("/"));
    let look = |components: &Vec<String>| -> Vec<Place> {
        (0..=components.len())
            .map(|k| {
                let at = text(&components[..k]);
                Place {
                    exists: dirs.contains(&at.as_str()),
                    link: links.iter().find(|l| l.0 == at).map(|l| l.1.to_string()),
                }
            })
            .collect()
    };
    let asked = path_components(path);
    let mut components = asked.clone();
    let mut hops: u32 = 0;
    loop {
        match absolutize_missing(&components, &look(&components), hops) {
            Search::Found(k) => return reattach(&text(&components[..k]), &components, k),
            Search::Follow(next) => {
                components = next;
                hops += 1;
            }
            Search::Back => {
                let k = existing_ancestor(&asked, &look(&asked));
                return reattach(&text(&asked[..k]), &asked, k);
            }
        }
    }
}

#[test]
fn link_to_a_directory_that_is_gone() {
    let dirs = ["/", "/real", "/home"];
    assert_eq!(searched("/link", &dirs, &[("/link", "/real/proj")]), "/real/proj");
    assert_eq!(searched("/link/sub/x", &dirs, &[("/link", "/real//./proj/")]), "/real/proj/sub/x");
    // Relative to the directory that holds the link.
    assert_eq!(searched("/real/now/x", &dirs, &[("/real/now", "v2")]), "/real/v2/x");
    // A link to a link.
    let chain = [("/home/a", "b"), ("/home/b", "/real/proj")];
    assert_eq!(searched("/home/a", &dirs, &chain), "/real/proj");
    // The container is the one that was made for the target.
    assert_eq!(
        sandbox(&searched("/link", &dirs, &[("/link", "/real/proj")])).name,
        sandbox("/real/proj").name
    );
}

#[test]
fn links_that_lead_nowhere() {
    let dirs = ["/", "/real", "/home"];
    assert_eq!(LINK_LIMIT, 32);
    assert_eq!(searched("/link", &dirs, &[("/link", "/link")]), "/link");
    // A circle of three comes back to the member that was asked for.
    let circle = [("/home/a", "b"), ("/home/b", "c"), ("/home/c", "a")];
    for name in ["/home/a", "/home/b", "/home/c"] {
        assert_eq!(searched(name, &dirs, &circle), name);
        assert_eq!(searched(&format!("{name}/x"), &dirs, &circle), format!("{name}/x"));
    }
    // So does a target that goes up from what is gone.
    assert_eq!(searched("/link", &dirs, &[("/link", "/gone/../proj")]), "/link");
    assert_eq!(searched("/home/l/x", &dirs, &[("/home/l", "gone/../../proj")]), "/home/l/x");
    // A chain as long as the limit is followed to its end, a longer one is not.
    let names: Vec<String> = (0..34).map(|i| format!("/home/l{i}")).collect();
    let chain: Vec<(&str, &str)> =
        (0..33).map(|i| (names[i].as_str(), names[i + 1].as_str())).collect();
    assert_eq!(searched("/home/l1", &dirs, &chain), "/home/l33");
    assert_eq!(searched("/home/l0", &dirs, &chain), "/home/l0");
}

#[test]
fn link_that_is_followed_once() {
    let list = vec![
        Place { exists: true, link: None },
        Place { exists: true, link: None },
        Place { exists: false, link: Some("../real/proj".to_string()) },
        Place { exists: false, link: None },
    ];
    let components = owned(&["home", "link", "sub"]);
    match absolutize_missing(&components, &list, 31) {
        Search::Follow(next) => assert_eq!(next, owned(&["home", "..", "real", "proj", "sub"])),
        _ => panic!("not followed"),
    }
    assert!(matches!(absolutize_missing(&components, &list, 32), Search::Back));
    assert_eq!(existing_ancestor(&components, &list), 1);
    // A path that was asked for with `..` behind what is gone stands as it is.
    let up = owned(&["gone", "..", "x"]);
    let gone = places(&[true, false, false, false]);
    assert!(matches!(absolutize_missing(&up, &gone, 0), Search::Found(2)));
    assert!(matches!(absolutize_missing(&up, &gone, 1), Search::Back));
}

#[test]
fn components_of_paths() {
    for path in ["", "/", "a", "/a/b", "//a///b/", "./a/./b/.", "../a/..", "/a/...", "/a b/c"] {
        let expected: Vec<String> = std::path::Path::new(path)
            .components()
            .filter(|c| !matches!(c, std::path::Component::RootDir | std::path::Component::CurDir))
            .map(|c| c.as_os_str().to_string_lossy().into_owned())
            .collect();
        assert_eq!(path_components(path), expected, "{path}");
    }
}

#[test]
fn gone_directory_keeps_its_container() {
    let components = owned(&["Users", "ann", "Projects", "my-app"]);
    let whole = sandbox("/Users/ann/Projects/my-app").name;
    for (resolved, from) in
        [("/", 0), ("/Users", 1), ("/Users/ann", 2), ("/Users/ann/Projects", 3)]
    {
        assert_eq!(sandbox(&reattach(resolved, &components, from)).name, whole);
    }
}

#[test]
fn account_names() {
    let ok = |raw: &str| match guest_user(raw, UserSource::Login) {
        Ok(name) => name,
        Err(message) => panic!("{message}"),
    };
    assert_eq!(ok("ann"), "ann");
    assert_eq!(ok("  Ann.Smith "), "ann-smith");
    assert_eq!(ok("_svc"), "_svc");
    assert_eq!(ok("MAX_9"), "max_9");
    assert_eq!(ok("jörg"), "j-rg");
    assert_eq!(ok("a--"), "a");
    assert_eq!(ok(&"x".repeat(40)), "x".repeat(32));
    assert_eq!(ok(&format!("{}-{}", "x".repeat(31), "y")), "x".repeat(31));
    // The Kelvin sign becomes a letter.
    assert_eq!(ok("\u{212A}im"), "kim");
}

#[test]
fn account_names_that_cannot_be_used() {
    let tool = tool();
    let err = |raw: &str, source: UserSource| match guest_user(raw, source) {
        Ok(name) => panic!("{name}"),
        Err(message) => message,
    };
    assert_eq!(
        err(" root ", UserSource::Variable),
        format!(
            "cannot use CLAUDE_SANDBOX_USER (\"root\") as the account name inside the VM: it must start with a letter or underscore, and cannot be root.\n  pick one explicitly:  CLAUDE_SANDBOX_USER=<name> {tool} <dir>"
        )
    );
    assert_eq!(
        err("9lives", UserSource::Login),
        format!(
            "cannot use your username (\"9lives\") as the account name inside the VM: it must start with a letter or underscore, and cannot be root.\n  pick one explicitly:  CLAUDE_SANDBOX_USER=<name> {tool} <dir>"
        )
    );
    for raw in ["", "   ", "-x", "---", "Root", "é"] {
        assert!(guest_user(raw, UserSource::Login).is_err(), "{raw}");
    }
    assert_eq!(account_name("root"), None);
    assert_eq!(account_name("a!"), Some("a".to_string()));
}

#[test]
fn lower_case_has_no_ascii_capitals() {
    let mut all = String::new();
    for c in '\0'..=char::MAX {
        all.push(c);
    }
    assert!(all.to_lowercase().chars().all(|c| !c.is_ascii_uppercase()));
}

#[test]
fn who_runs_the_tool() {
    let some = |s: &str| Some(s.to_string());
    assert_eq!(host_user(some("ann"), some("bob")), some("ann"));
    assert_eq!(host_user(some("  "), some("bob")), some("bob"));
    assert_eq!(host_user(None, some("bob")), some("bob"));
    assert_eq!(host_user(some(" ann "), None), some(" ann "));
    assert_eq!(host_user(None, some(" ")), None);
    assert_eq!(host_user(None, None), None);

    let source = |v: Option<&str>, u: Option<&str>, l: Option<&str>| {
        account_source(v.map(String::from), u.map(String::from), l.map(String::from))
    };
    assert!(matches!(
        source(Some("vm"), Some("ann"), None),
        Some((n, UserSource::Variable)) if n == "vm"
    ));
    assert!(matches!(
        source(Some(" "), Some("ann"), None),
        Some((n, UserSource::Variable)) if n == " "
    ));
    assert!(matches!(
        source(None, Some(""), Some("bob")),
        Some((n, UserSource::Login)) if n == "bob"
    ));
    assert!(source(None, None, Some("")).is_none());

    let command = id_command();
    assert_eq!(command.program, "id");
    assert_eq!(command.args, owned(&["-un"]));
    let told = Outcome::Finished {
        success: true,
        stdout: "carol\n".to_string(),
        stderr: String::new(),
    };
    assert_eq!(system_user(&told), Ok("carol".to_string()));
    let failed = Outcome::Finished {
        success: false,
        stdout: String::new(),
        stderr: " no name \n".to_string(),
    };
    assert_eq!(
        system_user(&failed),
        Err("cannot tell who you are: neither $USER nor $LOGNAME is set and `id -un` failed.\n  set the VM account name explicitly with CLAUDE_SANDBOX_USER: id -un failed: no name".to_string())
    );
}
