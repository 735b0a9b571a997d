use console::strip_ansi_codes;
use delta::paint::{get_config, Config};
use delta::state_machine::{delta, get_file_extension_from_diff_line, State};
use syntect::highlighting::ThemeSet;
use syntect::parsing::SyntaxSet;

fn to_lines(v: &[&str]) -> Vec<String> {
    v.iter().map(|s| s.to_string()).collect()
}

// The filter's default theme names come from a fuller asset bundle;
// syntect's stock theme set ships other names, so register one here.
fn assets() -> (SyntaxSet, ThemeSet) {
    let ss = SyntaxSet::load_defaults_newlines();
    let mut ts = ThemeSet::load_defaults();
    let dark = ts.themes["base16-ocean.dark"].clone();
    ts.themes.insert("Monokai Extended".to_string(), dark);
    (ss, ts)
}

fn output_lines(out: &str) -> Vec<String> {
    assert!(out.is_empty() || out.ends_with('\n'));
    out.split('\n')
        .map(|s| s.to_string())
        .take(out.split('\n').count() - 1)
        .collect()
}

fn stripped_lines(out: &str) -> Vec<String> {
    output_lines(out)
        .iter()
        .map(|l| strip_ansi_codes(l).to_string())
        .collect()
}

const MINUS_BG: &str = "\x1b[48;2;63;0;1m";
const PLUS_BG: &str = "\x1b[48;2;1;59;1m";

#[test]
fn state_values_are_distinct() {
    assert_ne!(State::Commit, State::DiffMeta);
    assert_ne!(State::HunkMinus, State::HunkPlus);
    assert_eq!(State::Unknown, State::Unknown);
}

#[test]
fn extension_from_diff_line() {
    assert_eq!(
        get_file_extension_from_diff_line("diff --git a/src/x.py b/src/x.py"),
        Some("py")
    );
    assert_eq!(
        get_file_extension_from_diff_line("diff --git a/Makefile b/Makefile"),
        None
    );
}

#[test]
fn python_replacement_hunk() {
    // One removed run immediately followed by one added run, then a context
    // line: the batch is flushed as one unit on the context line; the two
    // blocks wear their own background tints; non-hunk lines pass verbatim.
    let (ss, ts) = assets();
    let cfg: Config = get_config(&ss, &None, &ts, false, &None, &None, true, None).unwrap();
    let input = to_lines(&[
        "diff --git a/x.py b/x.py",
        "@@ -1,2 +1,2 @@",
        "-print(1)",
        "-print(2)",
        "+print(3)",
        " done",
    ]);
    let out = delta(&input, &cfg);
    let lines = output_lines(&out);

    // One output line per input line (both batch halves were present).
    assert_eq!(lines.len(), input.len());

    // Lines not classified as hunk content are emitted byte-identical.
    assert_eq!(lines[0], "diff --git a/x.py b/x.py");
    assert_eq!(lines[1], "@@ -1,2 +1,2 @@");

    // The removed block: both lines under the removed tint, in input order,
    // flushed before the added block.
    assert!(lines[2].starts_with(MINUS_BG));
    assert!(lines[3].starts_with(MINUS_BG));
    assert!(lines[4].starts_with(PLUS_BG));

    // The context line is painted (foreground escapes from the highlighter),
    // with no background tint.
    assert!(lines[5].contains("\x1b[38;2;"));
    assert!(!lines[5].contains("\x1b[48;2;"));

    // Escapes are additive: stripping them recovers the stripped input.
    let stripped = stripped_lines(&out);
    assert_eq!(
        stripped,
        vec![
            "diff --git a/x.py b/x.py",
            "@@ -1,2 +1,2 @@",
            "-print(1)",
            "-print(2)",
            "+print(3)",
            " done",
        ]
    );
}

#[test]
fn minus_after_plus_forces_flush() {
    // "+a" is pending when "-b" arrives: the step flushes first, so "+a"
    // leaves before "-b". The flushed batch has an empty removed half, which
    // the painter writes as one blank separator line.
    let (ss, ts) = assets();
    let cfg: Config = get_config(&ss, &None, &ts, false, &None, &None, true, None).unwrap();
    let input = to_lines(&[
        "diff --git a/x.py b/x.py",
        "@@ -1 +1 @@",
        "+a",
        "-b",
        " c",
    ]);
    let out = delta(&input, &cfg);
    let lines = output_lines(&out);

    // 5 input lines, plus 2 blank separators (one per empty batch half).
    assert_eq!(lines.len(), 7);
    assert_eq!(lines[2], "");
    assert!(lines[3].starts_with(PLUS_BG));
    assert!(lines[4].starts_with(MINUS_BG));
    assert_eq!(lines[5], "");
    let stripped = stripped_lines(&out);
    assert_eq!(
        stripped,
        vec!["diff --git a/x.py b/x.py", "@@ -1 +1 @@", "", "+a", "-b", "", " c"]
    );
}

#[test]
fn highlight_removed_flag_controls_minus_foreground() {
    let (ss, ts) = assets();
    let input = to_lines(&["diff --git a/x.py b/x.py", "@@ -1 +0 @@", "-print(1)", " x"]);

    let plain = get_config(&ss, &None, &ts, false, &None, &None, false, None).unwrap();
    let out_plain = delta(&input, &plain);
    let minus_line_plain = &output_lines(&out_plain)[2];
    assert!(minus_line_plain.starts_with(MINUS_BG));
    assert!(!minus_line_plain.contains("\x1b[38;2;"));

    let hl = get_config(&ss, &None, &ts, false, &None, &None, true, None).unwrap();
    let out_hl = delta(&input, &hl);
    let minus_line_hl = &output_lines(&out_hl)[2];
    assert!(minus_line_hl.contains("\x1b[38;2;"));
}

#[test]
fn preexisting_escapes_are_stripped_from_hunk_content() {
    // Hunk content arrives already colored: classification and painting work
    // on the stripped copy, so the emitted content is the stripped line.
    let (ss, ts) = assets();
    let cfg: Config = get_config(&ss, &None, &ts, false, &None, &None, true, None).unwrap();
    let input = to_lines(&[
        "diff --git a/x.py b/x.py",
        "@@ -1 +1 @@",
        "\x1b[31m-print(1)\x1b[0m",
        "+print(2)",
        " z",
    ]);
    let out = delta(&input, &cfg);
    let stripped = stripped_lines(&out);
    assert_eq!(stripped[2], "-print(1)");
    assert!(!out.contains("\x1b[31m"));
}

#[test]
fn unknown_extension_passes_hunk_content_through() {
    let (ss, ts) = assets();
    let cfg: Config = get_config(&ss, &None, &ts, false, &None, &None, true, None).unwrap();
    let input = to_lines(&[
        "diff --git a/x.nosuchext b/x.nosuchext",
        "@@ -1 +1 @@",
        "-a",
        "+b",
    ]);
    let out = delta(&input, &cfg);
    assert_eq!(
        out,
        "diff --git a/x.nosuchext b/x.nosuchext\n@@ -1 +1 @@\n-a\n+b\n"
    );
}

#[test]
fn non_diff_input_is_identity_and_idempotent() {
    let (ss, ts) = assets();
    let cfg: Config = get_config(&ss, &None, &ts, false, &None, &None, true, None).unwrap();
    let input = to_lines(&["hello", "", "commit 123abc", "@@ not a real hunk", "world"]);
    let out = delta(&input, &cfg);
    assert_eq!(out, "hello\n\ncommit 123abc\n@@ not a real hunk\nworld\n");
    let again = delta(&output_lines(&out), &cfg);
    assert_eq!(again, out);
}

#[test]
fn rerun_on_stripped_output_is_stable() {
    // Escape codes are additive, not structural: stripping the output and
    // running the filter again yields the same stripped text.
    let (ss, ts) = assets();
    let cfg: Config = get_config(&ss, &None, &ts, false, &None, &None, true, None).unwrap();
    let input = to_lines(&[
        "diff --git a/x.py b/x.py",
        "@@ -1,2 +1,2 @@",
        "-print(1)",
        "-print(2)",
        "+print(3)",
        " done",
    ]);
    let out1 = delta(&input, &cfg);
    let stripped1 = stripped_lines(&out1);
    let out2 = delta(&stripped1, &cfg);
    let stripped2 = stripped_lines(&out2);
    assert_eq!(stripped2, stripped1);
}

#[test]
fn commit_line_flushes_pending_batch() {
    let (ss, ts) = assets();
    let cfg: Config = get_config(&ss, &None, &ts, false, &None, &None, true, None).unwrap();
    let input = to_lines(&[
        "diff --git a/x.py b/x.py",
        "@@ -1 +1 @@",
        "-old",
        "+new",
        "commit abc",
    ]);
    let out = delta(&input, &cfg);
    let lines = output_lines(&out);
    assert_eq!(lines.len(), 5);
    assert!(lines[2].starts_with(MINUS_BG));
    assert!(lines[3].starts_with(PLUS_BG));
    // The commit line itself passes through verbatim, after the flush.
    assert_eq!(lines[4], "commit abc");
}

#[test]
fn empty_input_produces_empty_output() {
    let (ss, ts) = assets();
    let cfg: Config = get_config(&ss, &None, &ts, false, &None, &None, true, None).unwrap();
    let out = delta(&Vec::new(), &cfg);
    assert_eq!(out, "");
}

#[test]
fn trailing_batch_is_flushed_at_end_of_input() {
    let (ss, ts) = assets();
    let cfg: Config = get_config(&ss, &None, &ts, false, &None, &None, true, None).unwrap();
    let input = to_lines(&["diff --git a/x.py b/x.py", "@@ -1 +1 @@", "-gone", "+here"]);
    let out = delta(&input, &cfg);
    let stripped = stripped_lines(&out);
    assert_eq!(
        stripped,
        vec!["diff --git a/x.py b/x.py", "@@ -1 +1 @@", "-gone", "+here"]
    );
}
