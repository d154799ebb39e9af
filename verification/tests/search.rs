use jgrep::search::{context_lines, parse_grep_line, pipe_candidates, strip_ansi, ParsedGrepLine};

#[test]
fn parses_grep_lines() {
    assert_eq!(
        parse_grep_line("src/lib.rs:42:retry logic"),
        ParsedGrepLine {
            path: Some("src/lib.rs".to_string()),
            line_number: Some(42),
            content: "retry logic".to_string(),
            raw_line: "src/lib.rs:42:retry logic".to_string(),
        }
    );
    assert_eq!(parse_grep_line("plain").content, "plain");
}

#[test]
fn strips_ansi() {
    assert_eq!(strip_ansi("\u{1b}[31mred\u{1b}[0m"), "red");
}

#[test]
fn parses_path_and_text_without_number() {
    let p = parse_grep_line("notes.txt:some: text");
    assert_eq!(p.path, None);
    assert_eq!(p.line_number, None);
    assert_eq!(p.content, "notes.txt:some: text");
    let p = parse_grep_line("notes.txt:text only");
    assert_eq!(p.path.as_deref(), Some("notes.txt"));
    assert_eq!(p.line_number, None);
    assert_eq!(p.content, "text only");
}

#[test]
fn parses_plus_sign_and_empty_path() {
    let p = parse_grep_line(":+7:a:b");
    assert_eq!(p.path, None);
    assert_eq!(p.line_number, Some(7));
    assert_eq!(p.content, "a:b");
}

#[test]
fn too_large_line_number_is_no_number() {
    let p = parse_grep_line("f:99999999999999999999999:x");
    assert_eq!(p.line_number, None);
    assert_eq!(p.content, "f:99999999999999999999999:x");
}

#[test]
fn pipe_candidates_drop_blank_and_color_only_lines() {
    let lines = vec![
        "a.rs:1:retry timeout".to_string(),
        "b.rs:2:\u{1b}[31m\u{1b}[0m  ".to_string(),
        "\u{1b}[1mplain\u{1b}[0m".to_string(),
    ];
    let (parsed, valid) = pipe_candidates(&lines);
    assert_eq!(parsed.len(), 3);
    assert_eq!(valid, vec![(0, "retry timeout".to_string()), (2, "plain".to_string())]);
}

#[test]
fn context_lines_clip_at_the_edges() {
    let lines: Vec<String> = ["a", "b", "c", "d"].iter().map(|s| s.to_string()).collect();
    let (before, after) = context_lines(&lines, 2, 5, 1);
    assert_eq!(before, vec!["a".to_string()]);
    assert_eq!(after, vec!["c".to_string()]);
    let (before, after) = context_lines(&lines, 4, 2, 3);
    assert_eq!(before, vec!["b".to_string(), "c".to_string()]);
    assert!(after.is_empty());
}

/// Removes ESC `[` digits-and-`;` `m` sequences, scanning left to right.
fn scan_out_colors(s: &str) -> String {
    let c: Vec<char> = s.chars().collect();
    let mut out = String::new();
    let mut i = 0;
    while i < c.len() {
        if i + 1 < c.len() && c[i] == '\u{1b}' && c[i + 1] == '[' {
            let mut k = i + 2;
            while k < c.len() && (c[k].is_ascii_digit() || c[k] == ';') {
                k += 1;
            }
            if k < c.len() && c[k] == 'm' {
                i = k + 1;
                continue;
            }
        }
        out.push(c[i]);
        i += 1;
    }
    out
}

#[test]
fn color_sequences_are_removed_left_to_right() {
    assert_eq!(strip_ansi("a\u{1b}[mb"), "ab");
    assert_eq!(strip_ansi("\u{1b}[\u{1b}[31mx"), "\u{1b}[x");
    assert_eq!(strip_ansi("\u{1b}[12;3xm"), "\u{1b}[12;3xm");
    assert_eq!(strip_ansi("\u{1b}[1;32;40mok\u{1b}[0m!"), "ok!");
    for s in [
        "plain",
        "\u{1b}[31m\u{1b}[0m",
        "[31m",
        "\u{1b}\u{1b}[0mz",
        "\u{1b}[0;;9mq\u{1b}[",
        "é\u{1b}[7m€",
    ] {
        assert_eq!(strip_ansi(s), scan_out_colors(s));
    }
}
