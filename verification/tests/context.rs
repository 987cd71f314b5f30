use fbd::app::context::{
    base64_encode, markdown_block, osc52, sanitize_multiline, shell_command, shell_quote, summarize,
};
use fbd::bd::Issue;
use fbd::path::FsPath;

fn issue(id: &str, title: &str, description: Option<&str>) -> Issue {
    Issue {
        id: id.to_string(),
        title: title.to_string(),
        status: "open".into(),
        priority: 1,
        description: description.map(str::to_string),
        issue_type: None,
        owner: None,
        labels: Vec::new(),
        created_at: None,
        created_by: None,
        updated_at: None,
        dependency_count: None,
        dependent_count: None,
        comment_count: None,
    }
}

#[test]
fn builds_cd_command() {
    let cmd = shell_command(
        Some(&FsPath::new("/Users/x/dev/megaclock")),
        &FsPath::new("/hub"),
        "mc-abc",
    );
    assert_eq!(cmd, "cd /Users/x/dev/megaclock && bd show mc-abc");
}

#[test]
fn unattributed_issue_falls_back_to_hub_show() {
    // No source repo (unknown/collided prefix): the hub form, always runnable.
    let cmd = shell_command(None, &FsPath::new("/data/hub"), "mc-abc");
    assert_eq!(cmd, "bd -C /data/hub show mc-abc");
}

#[test]
fn shell_quotes_paths_with_spaces() {
    // A repo path with a space would break `cd` unquoted; it must be quoted so
    // the pasted command still runs.
    let cmd = shell_command(Some(&FsPath::new("/Users/x/my repo")), &FsPath::new("/h"), "mc-1");
    assert_eq!(cmd, "cd '/Users/x/my repo' && bd show mc-1");
}

#[test]
fn shell_quotes_metacharacters() {
    // Metacharacters in a path or id must not execute when pasted.
    let cmd = shell_command(
        Some(&FsPath::new("/tmp/a;rm -rf b")),
        &FsPath::new("/h"),
        "x$(id)",
    );
    assert!(
        cmd.starts_with("cd '/tmp/a;rm -rf b' && bd show "),
        "the dangerous path is single-quoted: {cmd:?}"
    );
    assert!(
        cmd.contains("'x$(id)'"),
        "the dangerous id is single-quoted: {cmd:?}"
    );
    // An embedded single quote is closed-escaped-reopened, not left dangling.
    let q = shell_command(Some(&FsPath::new("/tmp/it's")), &FsPath::new("/h"), "mc-1");
    assert!(q.contains(r"'/tmp/it'\''s'"), "single quote escaped: {q:?}");
}

#[test]
fn non_utf8_repo_path_falls_back_to_hub() {
    // A repo path with invalid UTF-8 bytes cannot be a faithful command
    // string; the hub form is emitted instead of a lossy, wrong `cd`.
    let bad = FsPath::from_bytes(b"/tmp/\xff\xferepo".to_vec());
    let cmd = shell_command(Some(&bad), &FsPath::new("/data/hub"), "mc-1");
    assert_eq!(
        cmd, "bd -C /data/hub show mc-1",
        "a non-UTF-8 repo path degrades to the always-runnable hub form"
    );
}

#[test]
fn builds_markdown_block() {
    let md = markdown_block(
        &issue(
            "mc-abc",
            "Fix the clock drift",
            Some("It skews after sleep."),
        ),
        "megaclock",
    );
    assert!(md.contains("Fix the clock drift"), "title present: {md:?}");
    assert!(md.contains("mc-abc"), "id present: {md:?}");
    assert!(md.contains("megaclock"), "repo present: {md:?}");
    assert!(md.contains("It skews after sleep."), "desc present: {md:?}");
}

#[test]
fn markdown_block_without_description() {
    let md = markdown_block(&issue("mc-abc", "Title only", None), "megaclock");
    assert!(md.contains("Title only") && md.contains("mc-abc") && md.contains("megaclock"));
    // No stray empty description section beyond the meta list.
    assert!(md.trim_end().ends_with("megaclock"), "ends at meta: {md:?}");
}

#[test]
fn markdown_preserves_multiline_description() {
    // A multi-paragraph / list description must keep its line breaks (and
    // tabs) so it pastes as real markdown, not one mangled line.
    let md = markdown_block(
        &issue("mc-1", "T", Some("first para\n\n- item one\n- item two")),
        "megaclock",
    );
    assert!(
        md.contains("first para\n\n- item one\n- item two"),
        "line breaks are preserved in the description: {md:?}"
    );
    // But an escape control inside the description is still neutralized.
    let evil = markdown_block(&issue("mc-1", "T", Some("ok\u{1b}]52;c;x\u{07}line2")), "r");
    assert!(
        !evil.contains('\u{1b}') && !evil.contains('\u{07}'),
        "escape controls stripped from a multi-line description: {evil:?}"
    );
}

#[test]
fn sanitizes_control_chars() {
    // A hostile title/id: an OSC 52 escape + newline that must not survive
    // into the clipboard payload (which a user may paste into a terminal).
    let hostile = "pwn\u{1b}]52;c;aGk=\u{07}\nrow";
    let cmd = shell_command(Some(&FsPath::new("/r")), &FsPath::new("/h"), hostile);
    assert!(
        !cmd.contains('\u{1b}') && !cmd.contains('\u{07}') && !cmd.contains('\n'),
        "no raw control chars in the command: {cmd:?}"
    );
    let md = markdown_block(&issue(hostile, hostile, Some(hostile)), hostile);
    assert!(
        !md.contains('\u{1b}') && !md.contains('\u{07}'),
        "no raw escape/BEL in the markdown: {md:?}"
    );
}

#[test]
fn base64_encode_matches_known_vectors() {
    // RFC 4648 §10 test vectors.
    assert_eq!(base64_encode(b""), "");
    assert_eq!(base64_encode(b"f"), "Zg==");
    assert_eq!(base64_encode(b"fo"), "Zm8=");
    assert_eq!(base64_encode(b"foo"), "Zm9v");
    assert_eq!(base64_encode(b"foob"), "Zm9vYg==");
    assert_eq!(base64_encode(b"fooba"), "Zm9vYmE=");
    assert_eq!(base64_encode(b"foobar"), "Zm9vYmFy");
}

#[test]
fn osc52_wraps_base64_payload() {
    assert_eq!(osc52("hi"), "\u{1b}]52;c;aGk=\u{07}");
}

#[test]
fn summarize_truncates_first_line() {
    assert_eq!(summarize("short", 20), "short");
    // Multi-line payload: only the first line.
    assert_eq!(summarize("first\nsecond", 20), "first");
    // Past the cap: truncated with an ellipsis, total length == max.
    let long = "a".repeat(50);
    let s = summarize(&long, 10);
    assert_eq!(s.chars().count(), 10, "capped to max chars: {s:?}");
    assert!(s.ends_with('…'), "ellipsis marks truncation: {s:?}");
}

/// What a POSIX shell makes of one quoted word.
fn unquote(word: &str) -> String {
    let mut out = String::new();
    let mut quoted = false;
    let mut chars = word.chars();
    while let Some(c) = chars.next() {
        match c {
            '\'' => quoted = !quoted,
            '\\' if !quoted => out.push(chars.next().expect("an escaped character")),
            _ => out.push(c),
        }
    }
    assert!(!quoted, "an open quote in {word:?}");
    out
}

#[test]
fn a_shell_reads_back_what_was_quoted() {
    for text in ["", "plain", "a b", "it's", "''", "$(id) `x` \\ \"", "tab\there", "ü…"] {
        assert_eq!(unquote(&shell_quote(text)), text);
    }
    assert_eq!(shell_quote("/safe/path-1.x_y"), "/safe/path-1.x_y");
    assert_eq!(shell_quote(""), "''");
}

#[test]
fn base64_decodes_back() {
    let symbols = "ABCDEFGHIJKLMNOPQRSTUVWXYZabcdefghijklmnopqrstuvwxyz0123456789+/";
    for len in 0..9u8 {
        let bytes: Vec<u8> = (0..len).map(|i| i.wrapping_mul(97).wrapping_add(131)).collect();
        let text = base64_encode(&bytes);
        assert_eq!(text.len() % 4, 0);
        let mut bits = 0u32;
        let mut count = 0;
        let mut decoded = Vec::new();
        for c in text.trim_end_matches('=').chars() {
            bits = bits << 6 | symbols.find(c).expect("a symbol") as u32;
            count += 6;
            if count >= 8 {
                count -= 8;
                decoded.push((bits >> count) as u8);
                bits &= (1 << count) - 1;
            }
        }
        assert_eq!(decoded, bytes);
    }
}

#[test]
fn a_multi_line_description_stays_inert() {
    let text = "first\n\tsecond\u{1b}[2J\r\u{7f}";
    let clean = sanitize_multiline(text);
    assert_eq!(clean, "first\n\tsecond\u{fffd}[2J\n\u{fffd}");
    assert_eq!(sanitize_multiline("a\r\nb\r\r\nc"), "a\nb\n\nc");
}

#[test]
fn a_summary_never_exceeds_its_cap() {
    for max in 1..6 {
        for text in ["", "a", "abcde", "abcdef", "abc\ndef"] {
            assert!(summarize(text, max).chars().count() <= max);
        }
    }
    assert_eq!(summarize("abcde", 5), "abcde");
    assert_eq!(summarize("abcdef", 5), "abcd…");
    assert_eq!(summarize("ab", 0), "…", "only the mark is left");
    assert_eq!(summarize("ab\r\ncd", 9), "ab");
}
