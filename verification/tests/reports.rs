use bug::report::{render_report, report_outcome, use_hyperlink, write_pieces, Piece};
use bug::{
    create_terminal_hyperlink, init_handle, supports_hyperlinks, BugReportHandle, FxHashMap,
    HyperlinkMode, IssueTemplate, NoOutput, Output,
};

struct Recorded {
    calls: Vec<(bool, String)>,
}

impl Recorded {
    fn new() -> Recorded {
        Recorded { calls: Vec::new() }
    }

    fn text(&self) -> String {
        let mut all = String::new();
        for (_, piece) in &self.calls {
            all.push_str(piece);
        }
        all
    }
}

impl Output for Recorded {
    fn write_str(&mut self, s: &str) {
        self.calls.push((false, s.to_string()));
    }

    fn write_fmt(&mut self, args: core::fmt::Arguments) {
        self.calls.push((true, args.to_string()));
    }
}

fn params(entries: &[(&str, &str)]) -> FxHashMap<String, String> {
    let mut map: FxHashMap<String, String> = FxHashMap::default();
    for (key, value) in entries {
        map.insert(key.to_string(), value.to_string());
    }
    map
}

fn handle(mode: HyperlinkMode) -> BugReportHandle {
    init_handle("octocat", "Hello-World")
        .add_template("bug", IssueTemplate::new("Bug: {x}", ""))
        .add_template("plain", IssueTemplate::new("Plain", ""))
        .hyperlinks(mode)
}

#[test]
fn create_terminal_hyperlink_wraps_the_text_in_escape_sequences() {
    assert_eq!(
        create_terminal_hyperlink("https://example.com", "File a bug report"),
        "\x1b]8;;https://example.com\x1b\\File a bug report\x1b]8;;\x1b\\"
    );
    assert_eq!(create_terminal_hyperlink("", ""), "\x1b]8;;\x1b\\\x1b]8;;\x1b\\");
}

#[test]
fn supports_hyperlinks_goes_by_the_type_of_the_terminal() {
    assert!(supports_hyperlinks(Some("xterm"), None, false));
    assert!(supports_hyperlinks(Some("xterm-256color"), None, false));
    assert!(supports_hyperlinks(Some("screen"), None, false));
    assert!(supports_hyperlinks(Some("screen.linux"), None, false));
    assert!(supports_hyperlinks(Some("tmux-256color"), None, false));
    assert!(supports_hyperlinks(Some("my-xterm"), Some("other"), false));
    assert!(!supports_hyperlinks(Some("linux"), None, false));
    assert!(!supports_hyperlinks(Some("XTERM"), None, false));
    assert!(!supports_hyperlinks(Some(""), None, false));
}

#[test]
fn supports_hyperlinks_goes_by_the_terminal_program() {
    assert!(supports_hyperlinks(None, Some("iTerm.app"), false));
    assert!(supports_hyperlinks(None, Some("WezTerm"), false));
    assert!(supports_hyperlinks(None, Some("Alacritty"), false));
    assert!(supports_hyperlinks(None, Some("Windows Terminal"), false));
    assert!(supports_hyperlinks(Some("dumb"), Some("WezTerm"), false));
    assert!(!supports_hyperlinks(None, Some("Apple_Terminal"), false));
    assert!(!supports_hyperlinks(None, Some("WezTerm2"), false));
    assert!(!supports_hyperlinks(None, Some("wezterm"), false));
    assert!(!supports_hyperlinks(None, Some(""), false));
}

#[test]
fn supports_hyperlinks_goes_by_the_mark_of_vs_code() {
    assert!(supports_hyperlinks(None, None, true));
    assert!(supports_hyperlinks(Some("dumb"), Some("unknown"), true));
}

#[test]
fn supports_hyperlinks_is_false_for_an_unknown_terminal() {
    assert!(!supports_hyperlinks(None, None, false));
    assert!(!supports_hyperlinks(Some("dumb"), Some("unknown"), false));
}

#[test]
fn use_hyperlink_goes_by_the_mode() {
    assert!(use_hyperlink(HyperlinkMode::Auto, true));
    assert!(!use_hyperlink(HyperlinkMode::Auto, false));
    assert!(use_hyperlink(HyperlinkMode::Always, true));
    assert!(use_hyperlink(HyperlinkMode::Always, false));
    assert!(!use_hyperlink(HyperlinkMode::Never, true));
    assert!(!use_hyperlink(HyperlinkMode::Never, false));
}

#[test]
fn report_bug_returns_the_url() {
    let url = handle(HyperlinkMode::Auto).report_bug("bug", &params(&[("x", "A B")]), "src/main.rs", 7);
    assert_eq!(url, "https://github.com/octocat/Hello-World/issues/new?title=Bug%3A+A+B");
}

#[test]
fn report_bug_returns_the_empty_string_where_there_is_no_url() {
    assert_eq!(handle(HyperlinkMode::Auto).report_bug("none", &params(&[]), "src/main.rs", 7), "");
}

#[test]
fn report_bug_with_output_returns_the_url_whatever_the_sink() {
    let given = params(&[("x", "A B")]);
    let handle = handle(HyperlinkMode::Auto);
    let mut recorded = Recorded::new();
    let with_sink = handle.report_bug_with_output("bug", &given, "f.rs", 1, false, &mut recorded);
    let without = handle.report_bug_with_output("bug", &given, "f.rs", 1, false, &mut NoOutput);
    assert_eq!(with_sink, "https://github.com/octocat/Hello-World/issues/new?title=Bug%3A+A+B");
    assert_eq!(without, with_sink);
    let mut recorded = Recorded::new();
    assert_eq!(handle.report_bug_with_output("none", &given, "f.rs", 1, false, &mut recorded), "");
    assert_eq!(handle.report_bug_with_output("none", &given, "f.rs", 1, false, &mut NoOutput), "");
}

#[test]
fn report_bug_with_output_writes_the_report_of_a_url() {
    let mut recorded = Recorded::new();
    handle(HyperlinkMode::Never).report_bug_with_output(
        "bug",
        &params(&[("x", "A B")]),
        "src/main.rs",
        42,
        true,
        &mut recorded,
    );
    assert_eq!(
        recorded.calls,
        vec![
            (true, "\u{1F41B} BUG ENCOUNTERED in src/main.rs:42\n".to_string()),
            (true, "   Template: bug\n".to_string()),
            (false, "   Parameters:\n".to_string()),
            (true, "     x: A B\n".to_string()),
            (
                true,
                "   File a bug report: https://github.com/octocat/Hello-World/issues/new?title=Bug%3A+A+B\n"
                    .to_string()
            ),
            (false, "\n".to_string()),
        ]
    );
}

#[test]
fn report_bug_with_output_leaves_out_the_parameters_where_there_are_none() {
    let mut recorded = Recorded::new();
    handle(HyperlinkMode::Never).report_bug_with_output(
        "plain",
        &params(&[]),
        "lib.rs",
        0,
        false,
        &mut recorded,
    );
    assert_eq!(
        recorded.text(),
        "\u{1F41B} BUG ENCOUNTERED in lib.rs:0\n   Template: plain\n   File a bug report: https://github.com/octocat/Hello-World/issues/new?title=Plain\n\n"
    );
    assert_eq!(recorded.calls.len(), 4);
}

#[test]
fn report_bug_with_output_writes_one_line_for_each_parameter() {
    let mut recorded = Recorded::new();
    let given = params(&[("x", "1"), ("y", "2"), ("z", "3")]);
    handle(HyperlinkMode::Never).report_bug_with_output("bug", &given, "a.rs", 3, false, &mut recorded);
    assert_eq!(recorded.calls.len(), 8);
    assert_eq!(recorded.calls[2], (false, "   Parameters:\n".to_string()));
    let mut lines: Vec<String> = recorded.calls[3..6].iter().map(|call| call.1.clone()).collect();
    lines.sort();
    assert_eq!(
        lines,
        vec!["     x: 1\n".to_string(), "     y: 2\n".to_string(), "     z: 3\n".to_string()]
    );
}

#[test]
fn report_bug_with_output_writes_a_hyperlink_by_the_mode() {
    let link = "   \x1b]8;;https://github.com/octocat/Hello-World/issues/new?title=Plain\x1b\\File a bug report\x1b]8;;\x1b\\\n";
    let plain = "   File a bug report: https://github.com/octocat/Hello-World/issues/new?title=Plain\n";
    let cases = [
        (HyperlinkMode::Always, false, link),
        (HyperlinkMode::Always, true, link),
        (HyperlinkMode::Never, false, plain),
        (HyperlinkMode::Never, true, plain),
        (HyperlinkMode::Auto, false, plain),
        (HyperlinkMode::Auto, true, link),
    ];
    for (mode, terminal, expected) in cases {
        let mut recorded = Recorded::new();
        handle(mode).report_bug_with_output("plain", &params(&[]), "a.rs", 1, terminal, &mut recorded);
        assert_eq!(recorded.calls[2], (true, expected.to_string()));
    }
}

#[test]
fn report_bug_with_output_writes_the_report_of_an_error() {
    let mut recorded = Recorded::new();
    let url = handle(HyperlinkMode::Always).report_bug_with_output(
        "missing",
        &params(&[("x", "1")]),
        "src/lib.rs",
        4294967295,
        true,
        &mut recorded,
    );
    assert_eq!(url, "");
    assert_eq!(
        recorded.calls,
        vec![
            (true, "\u{1F41B} BUG ENCOUNTERED in src/lib.rs:4294967295\n".to_string()),
            (true, "   Error generating bug report: Template 'missing' not found\n".to_string()),
            (false, "\n".to_string()),
        ]
    );
}

#[test]
fn report_outcome_writes_the_report_and_returns_the_url() {
    let mut recorded = Recorded::new();
    let url = report_outcome(
        Ok("https://example.com".to_string()),
        "t",
        &params(&[("k", "v")]),
        "f.rs",
        10,
        true,
        &mut recorded,
    );
    assert_eq!(url, "https://example.com");
    assert_eq!(
        recorded.text(),
        "\u{1F41B} BUG ENCOUNTERED in f.rs:10\n   Template: t\n   Parameters:\n     k: v\n   \x1b]8;;https://example.com\x1b\\File a bug report\x1b]8;;\x1b\\\n\n"
    );
    let mut recorded = Recorded::new();
    let url = report_outcome(
        Err("went wrong".to_string()),
        "t",
        &params(&[("k", "v")]),
        "f.rs",
        10,
        true,
        &mut recorded,
    );
    assert_eq!(url, "");
    assert_eq!(
        recorded.text(),
        "\u{1F41B} BUG ENCOUNTERED in f.rs:10\n   Error generating bug report: went wrong\n\n"
    );
}

#[test]
fn render_report_gives_the_pieces_in_the_order_of_the_entries() {
    let entries = vec![
        ("b".to_string(), "2".to_string()),
        ("a".to_string(), "1".to_string()),
    ];
    let pieces = render_report(&Ok("u".to_string()), "t", &entries, "f.rs", 5, false);
    let mut shown = Vec::new();
    for piece in &pieces {
        match piece {
            Piece::Text(text) => shown.push((false, text.clone())),
            Piece::Line(text) => shown.push((true, text.clone())),
        }
    }
    assert_eq!(
        shown,
        vec![
            (true, "\u{1F41B} BUG ENCOUNTERED in f.rs:5\n".to_string()),
            (true, "   Template: t\n".to_string()),
            (false, "   Parameters:\n".to_string()),
            (true, "     b: 2\n".to_string()),
            (true, "     a: 1\n".to_string()),
            (true, "   File a bug report: u\n".to_string()),
            (false, "\n".to_string()),
        ]
    );
    let mut recorded = Recorded::new();
    write_pieces(&mut recorded, &pieces);
    assert_eq!(recorded.calls, shown);
}
