use logsplit_rs::clipboard::{
    after_attempt, clipboard_command, Attempt, ClipboardStep, Transfer, COMMAND_COUNT,
};
use logsplit_rs::events::EventBatch;
use logsplit_rs::launch::{
    command_slug, logfile_name, resolve_shell_path_from, sanitize_component,
};
use logsplit_rs::text::{
    before_text, chars_of, contains_text, fit_text, parse_unsigned, push_decimal, split_text,
    string_of, trim_text,
};

#[test]
fn resolve_shell_prefers_explicit_arg() {
    assert_eq!(
        resolve_shell_path_from(Some("/bin/bash"), Some("/bin/fish"), Some("/bin/zsh")),
        "/bin/bash"
    );
}

#[test]
fn resolve_shell_prefers_logsplit_env_over_shell_env() {
    assert_eq!(
        resolve_shell_path_from(None, Some("/bin/fish"), Some("/bin/zsh")),
        "/bin/fish"
    );
}

#[test]
fn resolve_shell_uses_shell_env_when_override_missing() {
    assert_eq!(
        resolve_shell_path_from(None, None, Some("/bin/zsh")),
        "/bin/zsh"
    );
}

#[test]
fn resolve_shell_falls_back_to_bin_sh() {
    assert_eq!(resolve_shell_path_from(None, None, None), "/bin/sh");
}

#[test]
fn empty_shells_are_passed_over() {
    assert_eq!(resolve_shell_path_from(Some(""), Some(""), Some("")), "/bin/sh");
    assert_eq!(resolve_shell_path_from(Some(""), None, Some("/bin/zsh")), "/bin/zsh");
}

#[test]
fn log_names_tell_command_session_window_and_time() {
    assert_eq!(
        logfile_name("htop --tree", Some("5317.ttys000.m1pro"), Some("7"), 1775820282),
        "htop-5317.ttys000.m1pro-w7-1775820282.log"
    );
    assert_eq!(logfile_name("", None, None, 0), "cmd-nosession-wnoscreen-0.log");
}

#[test]
fn slugs_come_from_the_first_word() {
    assert_eq!(command_slug("  /usr/bin/python3 manage.py"), "python3");
    assert_eq!(command_slug("\u{3000}tail\t-f"), "tail");
    assert_eq!(command_slug("a$b"), "a_b");
    assert_eq!(command_slug("/"), "_");
    assert_eq!(command_slug(".."), "..");
    assert_eq!(command_slug("bin/"), "bin");
    assert_eq!(command_slug("   "), "cmd");
}

#[test]
fn slugs_are_file_names() {
    for path in ["a/b", "a/.", "./x", "a//b/", "a/..", ".", "..a", "/usr/bin/env", "//", "a/./b"] {
        let name = std::path::Path::new(path)
            .file_name()
            .and_then(|name| name.to_str())
            .unwrap_or(path);
        assert_eq!(command_slug(path), sanitize_component(name), "{path}");
    }
}

#[test]
fn names_hold_name_characters_only() {
    assert_eq!(sanitize_component("a b/\u{e9}.-_Z9"), "a_b__.-_Z9");
    assert_eq!(sanitize_component(""), "cmd");
    let once = sanitize_component("x:y z");
    assert_eq!(sanitize_component(&once), once);
}

#[test]
fn numbers_are_written_and_read() {
    for n in [0, 7, 10, 65535, 1775820282, u64::MAX] {
        let mut text = String::new();
        push_decimal(&mut text, n);
        assert_eq!(text, n.to_string());
        assert_eq!(parse_unsigned(&chars_of(&text), u64::MAX), Some(n));
    }
    for text in ["", "+", "-1", "1 ", "\u{664}", "256", "+255", "0255", "99999999999999999999"] {
        assert_eq!(
            parse_unsigned(&chars_of(text), 255).map(|n| n as u8),
            text.parse::<u8>().ok(),
            "{text}"
        );
    }
}

#[test]
fn texts_are_taken_apart() {
    let parts = |text: &str| -> Vec<String> {
        split_text(&chars_of(text), ';').iter().map(|part| string_of(part)).collect()
    };
    for text in ["", ";", "a", "a;b;", ";;a"] {
        assert_eq!(parts(text), text.split(';').collect::<Vec<_>>());
    }
    assert_eq!(string_of(&before_text(&chars_of("1:2:3"), ':')), "1");
    assert_eq!(string_of(&before_text(&chars_of("12"), ':')), "12");
    assert_eq!(string_of(&trim_text(&chars_of(" \u{a0}a b\t\n"))), "a b");
    for (text, needle) in [("abc", ""), ("abc", "bc"), ("abc", "bd"), ("", "a"), ("aab", "ab")] {
        assert_eq!(
            contains_text(&chars_of(text), &chars_of(needle)),
            text.contains(needle)
        );
    }
}

#[test]
fn texts_are_fitted_to_a_width() {
    assert_eq!(fit_text("abc", 5), "abc  ");
    assert_eq!(fit_text("abcdef", 3), "abc");
    assert_eq!(fit_text("", 0), "");
}

#[test]
fn batches_are_drawn_once() {
    let mut batch = EventBatch::new();
    assert!(!batch.sync_due() && !batch.redraw_due());
    batch.log_may_have_grown(false);
    assert!(batch.sync_due() && !batch.redraw_due());
    batch.synced(true);
    assert!(!batch.sync_due() && batch.redraw_due());
    let mut other = EventBatch::new();
    other.log_may_have_grown(true);
    other.synced(false);
    assert!(other.redraw_due());
    let mut key = EventBatch::new();
    key.event_handled();
    assert!(key.redraw_due() && !key.sync_due());
}

#[test]
fn clipboard_commands_are_tried_in_order() {
    let line = |transfer: Transfer, index: usize| -> String {
        let command = clipboard_command(transfer, index);
        let mut words = vec![command.program];
        words.extend(command.args);
        words.join(" ")
    };
    let copy: Vec<String> = (0..COMMAND_COUNT).map(|n| line(Transfer::Copy, n)).collect();
    assert_eq!(
        copy,
        vec!["pbcopy", "wl-copy", "xclip -selection clipboard", "xsel --clipboard --input"]
    );
    let paste: Vec<String> = (0..COMMAND_COUNT).map(|n| line(Transfer::Paste, n)).collect();
    assert_eq!(
        paste,
        vec![
            "pbpaste",
            "wl-paste -n",
            "xclip -selection clipboard -o",
            "xsel --clipboard --output"
        ]
    );
}

#[test]
fn clipboard_attempts_are_followed_up() {
    let missing = || Attempt::Missing("not found".to_string());
    let exited = || Attempt::Exited("exit status: 1".to_string());
    for index in 0..COMMAND_COUNT {
        assert!(matches!(
            after_attempt(Transfer::Copy, index, Attempt::Succeeded),
            ClipboardStep::Done
        ));
        assert!(matches!(
            after_attempt(Transfer::Copy, index, Attempt::Broken("pipe".to_string())),
            ClipboardStep::Failed(error) if error == "pipe"
        ));
    }
    assert!(matches!(after_attempt(Transfer::Paste, 0, missing()), ClipboardStep::Try(1)));
    assert!(matches!(after_attempt(Transfer::Paste, 2, exited()), ClipboardStep::Try(3)));
    assert!(matches!(
        after_attempt(Transfer::Paste, 3, exited()),
        ClipboardStep::Failed(error) if error == "xsel exited with status exit status: 1"
    ));
    assert!(matches!(
        after_attempt(Transfer::Copy, 3, missing()),
        ClipboardStep::Failed(error) if error == "not found"
    ));
}
