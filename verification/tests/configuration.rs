use zed_sandbox::sandbox::Sandbox;

fn sandbox(name: &str) -> Sandbox {
    Sandbox {
        user: "ann".to_string(),
        image: "img:ann".to_string(),
        home: "/Users/ann".to_string(),
        state_dir: "/st".to_string(),
        claude_dir: "/Users/ann/.cfg".to_string(),
        key: "/st/id_ed25519".to_string(),
        ssh_conf: "/st/ssh_config".to_string(),
        abs: "/Users/ann/p".to_string(),
        name: name.to_string(),
        target: "/home/ann/Projects/p".to_string(),
    }
}

fn tool() -> String {
    "CLAUDE_SANDBOX".to_lowercase().replace('_', "-")
}

fn block(name: &str, ip: &str) -> String {
    format!("# BEGIN {name}\nHost {name}.container {name}\n  HostName {ip}\n# END {name}\n")
}

fn defaults() -> String {
    let tool = tool();
    format!(
        "# BEGIN defaults\nHost {tool}-*.container {tool}-*\n  User ann\n  IdentityFile /st/id_ed25519\n  IdentitiesOnly yes\n  StrictHostKeyChecking no\n  UserKnownHostsFile /dev/null\n  LogLevel ERROR\n# END defaults\n"
    )
}

#[test]
fn first_configuration() {
    let text = sandbox("one").ensure_ssh_config("", "container", "192.168.64.2");
    assert_eq!(text, Some(format!("{}{}", block("one", "192.168.64.2"), defaults())));
}

#[test]
fn configuration_settles() {
    let sb = sandbox("one");
    let text = sb.ensure_ssh_config("cruft\n", "container", "192.168.64.2").unwrap();
    assert_eq!(sb.ensure_ssh_config(&text, "container", "192.168.64.2"), None);
}

#[test]
fn last_address_counts() {
    let sb = sandbox("one");
    let existing = format!("{}cruft\n", block("two", "192.168.64.5"));
    let first = sb.ensure_ssh_config(&existing, "container", "192.168.64.2").unwrap();
    assert_eq!(
        sb.ensure_ssh_config(&first, "container", "192.168.64.9"),
        sb.ensure_ssh_config(&existing, "container", "192.168.64.9")
    );
}

#[test]
fn other_projects_blocks_are_preserved() {
    let one = sandbox("one");
    let two = sandbox("two");
    let first = one.ensure_ssh_config("", "container", "192.168.64.2").unwrap();
    let second = two.ensure_ssh_config(&first, "container", "192.168.64.3").unwrap();
    assert_eq!(
        second,
        format!("{}{}{}", block("one", "192.168.64.2"), block("two", "192.168.64.3"), defaults())
    );
    // A new address moves the block behind the others.
    let third = one.ensure_ssh_config(&second, "container", "192.168.64.9").unwrap();
    assert_eq!(
        third,
        format!("{}{}{}", block("two", "192.168.64.3"), block("one", "192.168.64.9"), defaults())
    );
}

#[test]
fn unmarked_lines_are_dropped() {
    let existing = format!(
        "Host old\n{}  stray\n# END nothing\n# BEGIN defaults\nHost x\n# END defaults\ntail",
        block("two", "192.168.64.3")
    );
    let text = sandbox("one").ensure_ssh_config(&existing, "container", "192.168.64.2").unwrap();
    assert_eq!(
        text,
        format!("{}{}{}", block("two", "192.168.64.3"), block("one", "192.168.64.2"), defaults())
    );
}

#[test]
fn any_end_ends_a_kept_block() {
    // A block that another one interrupts, and one that an end of another name ends.
    let existing = "# BEGIN two\na\n# END three\nb\n# BEGIN two\nc\n# BEGIN one\nd\n# END one\ne\n";
    let text = sandbox("one").ensure_ssh_config(existing, "container", "1.2.3.4").unwrap();
    assert_eq!(
        text,
        format!(
            "# BEGIN two\na\n# END three\n# BEGIN two\nc\n{}{}",
            block("one", "1.2.3.4"),
            defaults()
        )
    );
}

#[test]
fn carriage_returns_go() {
    let existing = "# BEGIN two\r\nx\r\n# END two\r\n";
    let text = sandbox("one").ensure_ssh_config(existing, "container", "1.2.3.4").unwrap();
    assert!(text.starts_with("# BEGIN two\nx\n# END two\n# BEGIN one\n"));
}

#[test]
fn stripping_drops_the_block_and_nothing_else() {
    let one = sandbox("one");
    let two = sandbox("two");
    let first = one.ensure_ssh_config("", "container", "192.168.64.2").unwrap();
    let both = two.ensure_ssh_config(&first, "container", "192.168.64.3").unwrap();
    let left = one.strip_ssh_block(&both);
    assert_eq!(left, format!("{}{}", block("two", "192.168.64.3"), defaults()));
    assert_eq!(one.strip_ssh_block(&left), left);
    assert_eq!(two.strip_ssh_block(&left), defaults());
}

#[test]
fn stripping_gives_the_file_back() {
    let one = sandbox("one");
    let two = sandbox("two");
    let existing = format!("{}cruft\n", block("three", "192.168.64.5"));
    let file = two.ensure_ssh_config(&existing, "container", "192.168.64.3").unwrap();
    let pinned = one.ensure_ssh_config(&file, "container", "192.168.64.2").unwrap();
    assert_ne!(pinned, file);
    assert_eq!(one.strip_ssh_block(&pinned), file);
}

#[test]
fn stripping_keeps_what_is_not_in_the_block() {
    let one = sandbox("one");
    assert_eq!(one.strip_ssh_block(""), "");
    assert_eq!(one.strip_ssh_block("a\nb"), "a\nb\n");
    assert_eq!(
        one.strip_ssh_block("a\n# BEGIN one\nb\n# END two\nc\n# END one\nd\n"),
        "a\nd\n"
    );
    // The beginning of another block ends the skipping.
    assert_eq!(
        one.strip_ssh_block("# BEGIN one\nb\n# BEGIN two\nc\n# END two\n"),
        "# BEGIN two\nc\n# END two\n"
    );
    // A block that is never ended goes to the end.
    assert_eq!(one.strip_ssh_block("x\n# BEGIN one\nb\nc"), "x\n");
}

#[test]
fn include_is_prepended_once() {
    let sb = sandbox("one");
    let text = sb.ensure_include("Host a\n").unwrap();
    assert_eq!(text, "Include /st/ssh_config\nHost a\n");
    assert_eq!(sb.ensure_include(&text), None);
    assert_eq!(sb.ensure_include(""), Some("Include /st/ssh_config\n".to_string()));
}

#[test]
fn include_is_found_in_any_form() {
    let sb = sandbox("one");
    for line in [
        "Include /st/ssh_config",
        "  include\t/st/ssh_config  ",
        "INCLUDE   /st/ssh_config",
        "Host a\r\nInclude /st/ssh_config\r\n",
    ] {
        assert_eq!(sb.ensure_include(line), None, "{line:?}");
    }
    for line in [
        "Include /st/ssh_config2",
        "Include",
        "Includes /st/ssh_config",
        "# Include /st/ssh_config",
        "Include=/st/ssh_config",
        "Include /st/ssh_config other",
    ] {
        assert_eq!(
            sb.ensure_include(line),
            Some(format!("Include /st/ssh_config\n{line}")),
            "{line:?}"
        );
    }
}
