use bug::extract_placeholders;

fn names(content: &str) -> Vec<String> {
    extract_placeholders(content)
}

#[test]
fn finds_a_placeholder() {
    assert_eq!(names("Hello {name}!"), vec!["name".to_string()]);
}

#[test]
fn finds_placeholders_in_the_order_of_their_first_occurrence() {
    assert_eq!(
        names("{b} and {a} and {c}"),
        vec!["b".to_string(), "a".to_string(), "c".to_string()]
    );
}

#[test]
fn names_each_placeholder_once() {
    assert_eq!(names("{a}{b}{a}{b}{a}"), vec!["a".to_string(), "b".to_string()]);
    assert_eq!(names("{x} {x} {x}"), vec!["x".to_string()]);
}

#[test]
fn finds_nothing_in_a_text_without_braces() {
    assert_eq!(names(""), Vec::<String>::new());
    assert_eq!(names("no placeholders here"), Vec::<String>::new());
}

#[test]
fn leaves_out_empty_braces() {
    assert_eq!(names("{}"), Vec::<String>::new());
    assert_eq!(names("a {} b {c}"), vec!["c".to_string()]);
}

#[test]
fn leaves_out_braces_that_hold_other_characters() {
    assert_eq!(names("{a b}"), Vec::<String>::new());
    assert_eq!(names("{a-b}"), Vec::<String>::new());
    assert_eq!(names("{a.b} {ok}"), vec!["ok".to_string()]);
    assert_eq!(names("{ a}"), Vec::<String>::new());
}

#[test]
fn leaves_out_a_placeholder_that_is_not_closed() {
    assert_eq!(names("{abc"), Vec::<String>::new());
    assert_eq!(names("{a} {bcd"), vec!["a".to_string()]);
    assert_eq!(names("{"), Vec::<String>::new());
}

#[test]
fn takes_letters_digits_and_underscores() {
    assert_eq!(names("{error_type}"), vec!["error_type".to_string()]);
    assert_eq!(names("{a1_B2}"), vec!["a1_B2".to_string()]);
    assert_eq!(names("{_}"), vec!["_".to_string()]);
    assert_eq!(names("{42}"), vec!["42".to_string()]);
}

#[test]
fn takes_letters_and_digits_of_any_script() {
    assert_eq!(names("{\u{e9}t\u{e9}}"), vec!["\u{e9}t\u{e9}".to_string()]);
    assert_eq!(names("{\u{540d}\u{524d}}"), vec!["\u{540d}\u{524d}".to_string()]);
    assert_eq!(names("{\u{663}}"), vec!["\u{663}".to_string()]);
}

#[test]
fn resumes_behind_the_character_that_ends_an_attempt() {
    assert_eq!(names("{a{b}"), Vec::<String>::new());
    assert_eq!(names("{{a}}"), Vec::<String>::new());
    assert_eq!(names("{a{b{c}"), vec!["c".to_string()]);
    assert_eq!(names("{a {b}"), vec!["b".to_string()]);
    assert_eq!(names("{a-{b}"), vec!["b".to_string()]);
}

#[test]
fn takes_a_closing_brace_without_an_opening_one_as_text() {
    assert_eq!(names("a} {b}"), vec!["b".to_string()]);
    assert_eq!(names("}{c}}"), vec!["c".to_string()]);
}

#[test]
fn finds_placeholders_next_to_each_other() {
    assert_eq!(names("{a}{b}"), vec!["a".to_string(), "b".to_string()]);
    assert_eq!(names("x{a}y{b}z"), vec!["a".to_string(), "b".to_string()]);
}

#[test]
fn finds_the_placeholders_of_a_template() {
    let content = "Application Crash: {error_type}\n\n## Context\n- Function: {function}\n- Line: {line}\n- Again: {error_type}";
    assert_eq!(
        names(content),
        vec!["error_type".to_string(), "function".to_string(), "line".to_string()]
    );
}
