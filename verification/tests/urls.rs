use bug::config::build_issue_url;
use bug::{init_handle, FxHashMap, IssueTemplate, TemplateFile};

fn params(entries: &[(&str, &str)]) -> FxHashMap<String, String> {
    let mut map: FxHashMap<String, String> = FxHashMap::default();
    for (key, value) in entries {
        map.insert(key.to_string(), value.to_string());
    }
    map
}

#[test]
fn generate_url_with_a_title_alone() {
    let handle = init_handle("octocat", "Hello-World")
        .add_template("bug", IssueTemplate::new("Bug: {x}", "").with_labels(Vec::new()));
    let url = handle.generate_url("bug", &params(&[("x", "A B")])).unwrap();
    assert_eq!(url, "https://github.com/octocat/Hello-World/issues/new?title=Bug%3A+A+B");
    assert!(!url.contains("body="));
    assert!(!url.contains("labels="));
}

#[test]
fn generate_url_joins_the_labels_by_commas_before_it_encodes_them() {
    let handle = init_handle("octocat", "Hello-World").add_template(
        "crash",
        IssueTemplate::new("Crash", "It crashed")
            .with_labels(vec!["bug".to_string(), "crash".to_string()]),
    );
    let url = handle.generate_url("crash", &params(&[])).unwrap();
    assert_eq!(
        url,
        "https://github.com/octocat/Hello-World/issues/new?title=Crash&body=It+crashed&labels=bug%2Ccrash"
    );
    assert!(url.ends_with("labels=bug%2Ccrash"));
}

#[test]
fn generate_url_fails_for_a_name_without_a_template() {
    let handle = init_handle("octocat", "Hello-World")
        .add_template("bug", IssueTemplate::new("Bug", ""));
    let message = handle.generate_url("no such template", &params(&[])).unwrap_err();
    assert_eq!(message, "Template 'no such template' not found");
    assert!(message.contains("no such template"));
    let message = handle.generate_url("", &params(&[("x", "y")])).unwrap_err();
    assert_eq!(message, "Template '' not found");
}

#[test]
fn generate_url_has_no_query_where_the_template_is_empty() {
    let handle = init_handle("o", "r").add_template("empty", IssueTemplate::new("", ""));
    assert_eq!(
        handle.generate_url("empty", &params(&[])).unwrap(),
        "https://github.com/o/r/issues/new"
    );
}

#[test]
fn generate_url_leaves_out_what_is_empty() {
    let handle = init_handle("o", "r")
        .add_template("body", IssueTemplate::new("", "only body"))
        .add_template(
            "labels",
            IssueTemplate::new("", "").with_labels(vec!["a b".to_string()]),
        )
        .add_template(
            "title and labels",
            IssueTemplate::new("t", "").with_labels(vec!["l".to_string()]),
        );
    assert_eq!(
        handle.generate_url("body", &params(&[])).unwrap(),
        "https://github.com/o/r/issues/new?body=only+body"
    );
    assert_eq!(
        handle.generate_url("labels", &params(&[])).unwrap(),
        "https://github.com/o/r/issues/new?labels=a+b"
    );
    assert_eq!(
        handle.generate_url("title and labels", &params(&[])).unwrap(),
        "https://github.com/o/r/issues/new?title=t&labels=l"
    );
}

#[test]
fn generate_url_leaves_out_a_title_that_is_empty_once_filled() {
    let handle = init_handle("o", "r").add_template("t", IssueTemplate::new("{x}", "b"));
    assert_eq!(
        handle.generate_url("t", &params(&[("x", "")])).unwrap(),
        "https://github.com/o/r/issues/new?body=b"
    );
}

#[test]
fn generate_url_does_not_encode_the_owner_and_the_repository() {
    let handle = init_handle("my org", "a/b").add_template("t", IssueTemplate::new("x", ""));
    assert_eq!(
        handle.generate_url("t", &params(&[])).unwrap(),
        "https://github.com/my org/a/b/issues/new?title=x"
    );
}

#[test]
fn generate_url_fills_in_a_crash_report() {
    let handle = init_handle("myorg", "shared-project").add_template(
        "crash",
        IssueTemplate::new(
            "Application Crash: {error_type}",
            "Function: {function}\nLine: {line}",
        )
        .with_labels(vec!["bug".to_string(), "crash".to_string()]),
    );
    let url = handle
        .generate_url(
            "crash",
            &params(&[
                ("error_type", "NullPointerException"),
                ("function", "calc"),
                ("line", "42"),
            ]),
        )
        .unwrap();
    assert_eq!(
        url,
        "https://github.com/myorg/shared-project/issues/new?title=Application+Crash%3A+NullPointerException&body=Function%3A+calc%0ALine%3A+42&labels=bug%2Ccrash"
    );
}

#[test]
fn generate_url_does_not_validate_the_parameters_of_a_template() {
    let handle = init_handle("o", "r").add_template("t", IssueTemplate::new("{a} {b}", ""));
    assert_eq!(
        handle.generate_url("t", &params(&[("a", "1"), ("c", "3")])).unwrap(),
        "https://github.com/o/r/issues/new?title=1+%7Bb%7D"
    );
}

#[test]
fn generate_url_from_a_template_file() {
    let handle = init_handle("o", "r").add_template_file(
        "file",
        TemplateFile::new("Crash: {kind}\n\nIn {place}\n").with_labels(vec!["bug".to_string()]),
    );
    assert_eq!(
        handle.generate_url("file", &params(&[("kind", "panic"), ("place", "main")])).unwrap(),
        "https://github.com/o/r/issues/new?title=Crash%3A+panic&body=In+main&labels=bug"
    );
}

#[test]
fn generate_url_validates_the_parameters_of_a_template_file() {
    let handle = init_handle("o", "r")
        .add_template_file("file", TemplateFile::new("Crash: {kind}\nIn {place}"))
        .add_template_file("empty", TemplateFile::new(""));
    assert_eq!(
        handle.generate_url("file", &params(&[("kind", "panic")])).unwrap_err(),
        "Missing required parameter: place"
    );
    assert_eq!(
        handle
            .generate_url("file", &params(&[("kind", "k"), ("place", "p"), ("more", "m")]))
            .unwrap_err(),
        "Unused parameter: more"
    );
    assert_eq!(
        handle.generate_url("empty", &params(&[])).unwrap_err(),
        "Template file is empty"
    );
}

#[test]
fn generate_url_takes_the_template_before_the_template_file_of_the_same_name() {
    let handle = init_handle("o", "r")
        .add_template_file("both", TemplateFile::new("From the file {x}"))
        .add_template("both", IssueTemplate::new("From the template", ""));
    assert_eq!(
        handle.generate_url("both", &params(&[])).unwrap(),
        "https://github.com/o/r/issues/new?title=From+the+template"
    );
    let other_order = init_handle("o", "r")
        .add_template("both", IssueTemplate::new("From the template", ""))
        .add_template_file("both", TemplateFile::new("From the file {x}"));
    assert_eq!(
        other_order.generate_url("both", &params(&[("unused", "u")])).unwrap(),
        "https://github.com/o/r/issues/new?title=From+the+template"
    );
}

#[test]
fn generate_url_is_the_same_each_time() {
    let handle = init_handle("o", "r").add_template("t", IssueTemplate::new("{a}", "{b}"));
    let given = params(&[("a", "1"), ("b", "2")]);
    assert_eq!(handle.generate_url("t", &given), handle.generate_url("t", &given));
    assert_eq!(handle.generate_url("none", &given), handle.generate_url("none", &given));
}

#[test]
fn add_template_replaces_the_template_of_the_same_name() {
    let handle = init_handle("o", "r")
        .add_template("t", IssueTemplate::new("old", ""))
        .add_template("t", IssueTemplate::new("new", ""));
    assert_eq!(
        handle.generate_url("t", &params(&[])).unwrap(),
        "https://github.com/o/r/issues/new?title=new"
    );
}

#[test]
fn build_issue_url_writes_title_body_and_labels_in_this_order() {
    let template = IssueTemplate::new("a&b", "c=d")
        .with_labels(vec!["x".to_string(), "y z".to_string(), "".to_string()]);
    assert_eq!(
        build_issue_url("o", "r", &template),
        "https://github.com/o/r/issues/new?title=a%26b&body=c%3Dd&labels=x%2Cy+z%2C"
    );
    assert_eq!(
        build_issue_url("", "", &IssueTemplate::new("", "")),
        "https://github.com///issues/new"
    );
}
