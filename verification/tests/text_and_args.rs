use zed_sandbox::args::{parse_args, unexpected_message, usage, Cmd, Request, USAGE};
use zed_sandbox::names::{expanded, tool_name};
use zed_sandbox::number::{decimal_text, writes_whole_number};
use zed_sandbox::text::{
    contains_text, ends_with, has_any, join_texts, same_text, split_at_first, split_lines,
    split_words, starts_with, strip_prefix, text_before, trim_both, trim_tail, trim_white, Pattern,
};

const SAMPLES: &[&str] = &[
    "",
    "\n",
    "a",
    "a\n",
    "a\nb",
    "a\r\nb\r\n",
    "a\r",
    "a\r\r\n",
    "\r\n",
    "\n\n",
    " a b ",
    "\ta = b=c\u{a0}",
    "  Include\t~/x  ",
    "--a--b--",
    "äöü ß\u{2003}x",
    "# BEGIN x",
    "10.0.0.2/24",
];

fn words(list: &[&str]) -> Vec<String> {
    list.iter().map(|s| s.to_string()).collect()
}

#[test]
fn white_space_is_what_unicode_says() {
    for c in '\0'..=char::MAX {
        assert_eq!(Pattern::White.matches(c), c.is_whitespace(), "{:x}", c as u32);
    }
}

#[test]
fn lines_agree_with_the_standard_library() {
    for s in SAMPLES {
        let expected: Vec<String> = s.lines().map(String::from).collect();
        assert_eq!(split_lines(s), expected, "{s:?}");
    }
}

#[test]
fn words_agree_with_the_standard_library() {
    for s in SAMPLES {
        let expected: Vec<String> = s.split_whitespace().map(String::from).collect();
        assert_eq!(split_words(s), expected, "{s:?}");
    }
}

#[test]
fn trimming_agrees_with_the_standard_library() {
    for s in SAMPLES {
        assert_eq!(trim_white(s), s.trim(), "{s:?}");
        assert_eq!(trim_tail(s, Pattern::White), s.trim_end(), "{s:?}");
        assert_eq!(trim_both(s, Pattern::Is('-')), s.trim_matches('-'), "{s:?}");
        assert_eq!(trim_tail(s, Pattern::Is('-')), s.trim_end_matches('-'), "{s:?}");
    }
}

#[test]
fn splitting_agrees_with_the_standard_library() {
    for s in SAMPLES {
        let pair = |p: Option<(&str, &str)>| p.map(|(a, b)| (a.to_string(), b.to_string()));
        assert_eq!(split_at_first(s, Pattern::Is('=')), pair(s.split_once('=')), "{s:?}");
        assert_eq!(
            split_at_first(s, Pattern::White),
            pair(s.split_once(char::is_whitespace)),
            "{s:?}"
        );
        assert_eq!(text_before(s, Pattern::Is('/')), s.split('/').next().unwrap(), "{s:?}");
        assert_eq!(strip_prefix(s, "# BEGIN "), s.strip_prefix("# BEGIN ").map(String::from));
    }
}

#[test]
fn searching_agrees_with_the_standard_library() {
    for s in SAMPLES {
        for t in ["", "a", "b", "=", "\n", "BEGIN", " b", "x"] {
            assert_eq!(contains_text(s, t), s.contains(t), "{s:?} {t:?}");
            assert_eq!(starts_with(s, t), s.starts_with(t), "{s:?} {t:?}");
            assert_eq!(ends_with(s, t), s.ends_with(t), "{s:?} {t:?}");
            assert_eq!(same_text(s, t), *s == t, "{s:?} {t:?}");
        }
        assert_eq!(has_any(s, Pattern::Is('\n')), s.contains('\n'), "{s:?}");
    }
}

#[test]
fn joining_texts() {
    assert_eq!(join_texts(&words(&[]), ", "), "");
    assert_eq!(join_texts(&words(&["a"]), ", "), "a");
    assert_eq!(join_texts(&words(&["a", "", "c"]), ", "), "a, , c");
}

#[test]
fn numbers_are_written_and_read() {
    for n in [0u32, 7, 9, 10, 15, 59, 60, 100, 12345, u32::MAX] {
        assert_eq!(decimal_text(n), n.to_string());
        assert!(writes_whole_number(&decimal_text(n)));
    }
    for s in [
        "", "+", "0", "+5", "++5", "-1", "15", " 15", "15 ", "1.5", "0x10", "007",
        "18446744073709551615", "18446744073709551616", "99999999999999999999999", "+0", "٣",
    ] {
        assert_eq!(writes_whole_number(s), s.parse::<u64>().is_ok(), "{s:?}");
    }
}

#[test]
fn usage_has_the_names_filled_in() {
    let text = usage();
    let tool = tool_name();
    assert_eq!(text, expanded(USAGE));
    assert!(text.starts_with(&format!("{tool} — run a project directory inside a {tool} VM")));
    assert!(text.contains(&format!("\n  {tool} shell <dir> [cmd...]  same, but ssh in")));
    assert!(text.contains("\n  CLAUDE_SANDBOX_IDLE=<seconds>  idle timeout"));
    assert!(!text.contains('@') && !text.contains('%') && !text.contains('^'));
}

fn read(list: &[&str]) -> Request {
    parse_args(&words(list))
}

fn run_of(list: &[&str]) -> (Cmd, bool, String, Vec<String>) {
    match read(list) {
        Request::Run { cmd, rebuild, dir, ssh_args } => (cmd, rebuild, dir, ssh_args),
        _ => panic!("{list:?}"),
    }
}

#[test]
fn command_lines() {
    assert!(run_of(&["d"]) == (Cmd::Up, false, "d".to_string(), vec![]));
    assert!(run_of(&["shell", "d"]) == (Cmd::Shell, false, "d".to_string(), vec![]));
    assert!(run_of(&["stop", "d"]) == (Cmd::Stop, false, "d".to_string(), vec![]));
    assert!(run_of(&["rm", "d"]) == (Cmd::Rm, false, "d".to_string(), vec![]));
    // A first word that is no command is the directory.
    assert!(run_of(&["up"]) == (Cmd::Up, false, "up".to_string(), vec![]));
    assert!(run_of(&["./stop"]) == (Cmd::Up, false, "./stop".to_string(), vec![]));
}

#[test]
fn only_shell_passes_arguments_on() {
    assert!(
        run_of(&["shell", "d", "ls", "-l", "--rebuild"])
            == (Cmd::Shell, false, "d".to_string(), words(&["ls", "-l", "--rebuild"]))
    );
    for list in [["stop", "d", "x"], ["rm", "d", "x"]] {
        assert!(matches!(read(&list), Request::Unexpected(a) if a == "x"));
    }
    assert!(matches!(read(&["d", "x", "y"]), Request::Unexpected(a) if a == "x"));
    assert!(matches!(read(&["stop", "d", "--rebuild"]), Request::Unexpected(a) if a == "--rebuild"));
    assert!(matches!(read(&["d", "--rebuild", "z"]), Request::Unexpected(a) if a == "z"));
    assert_eq!(unexpected_message("z"), "unexpected argument: z");
}

#[test]
fn rebuild_before_or_after_the_directory() {
    assert!(run_of(&["--rebuild", "d"]) == (Cmd::Up, true, "d".to_string(), vec![]));
    assert!(run_of(&["d", "--rebuild"]) == (Cmd::Up, true, "d".to_string(), vec![]));
    assert!(run_of(&["d", "--rebuild", "--rebuild"]) == (Cmd::Up, true, "d".to_string(), vec![]));
    assert!(run_of(&["shell", "--rebuild", "d"]) == (Cmd::Shell, true, "d".to_string(), vec![]));
    assert!(run_of(&["stop", "--rebuild", "d"]) == (Cmd::Stop, true, "d".to_string(), vec![]));
}

#[test]
fn usage_and_help_requests() {
    assert!(matches!(read(&[]), Request::Usage));
    assert!(matches!(read(&["shell"]), Request::Usage));
    assert!(matches!(read(&["--rebuild"]), Request::Usage));
    assert!(matches!(read(&["rm", "--rebuild"]), Request::Usage));
    assert!(matches!(read(&["-h"]), Request::Help));
    assert!(matches!(read(&["--help", "x"]), Request::Help));
    // Only in the first place does it ask for help.
    assert!(run_of(&["shell", "-h"]) == (Cmd::Shell, false, "-h".to_string(), vec![]));
}
