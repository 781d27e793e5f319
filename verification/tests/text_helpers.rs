use bug::text::{
    chars_of, clone_list, followed, contains, contains_text, joined, push_decimal, replaced,
    same_text, split_lines, string_of, trimmed,
};

const SAMPLES: [&str; 24] = [
    "",
    " ",
    "\n",
    "\r\n",
    "\r",
    "a",
    "one line",
    "one line\n",
    "one line\r\n",
    "one line\r",
    "first\nsecond",
    "first\r\nsecond\r\n",
    "first\n\nthird\n",
    "first\r\n\r\nthird",
    "\nsecond",
    "\n\n\n",
    "a\rb\nc",
    "a\r\r\nb",
    "  padded  ",
    "\t tab and space \n",
    "\u{3000}wide space\u{a0}",
    "caf\u{e9}\n\u{1F41B} bug\n",
    "ends with feed\n\r",
    "x\n \ny\n ",
];

#[test]
fn split_lines_gives_the_lines_of_std() {
    for sample in SAMPLES {
        let expected: Vec<String> = sample.lines().map(|line| line.to_string()).collect();
        assert_eq!(split_lines(sample), expected, "lines of {:?}", sample);
    }
}

#[test]
fn split_lines_of_given_texts() {
    assert_eq!(split_lines(""), Vec::<String>::new());
    assert_eq!(split_lines("\n"), vec!["".to_string()]);
    assert_eq!(split_lines("a\r\nb\n"), vec!["a".to_string(), "b".to_string()]);
    assert_eq!(split_lines("a\rb"), vec!["a\rb".to_string()]);
    assert_eq!(split_lines("a\r"), vec!["a\r".to_string()]);
    assert_eq!(split_lines("a\n\nb"), vec!["a".to_string(), "".to_string(), "b".to_string()]);
}

#[test]
fn trimmed_gives_the_trim_of_std() {
    for sample in SAMPLES {
        assert_eq!(trimmed(sample), sample.trim(), "trim of {:?}", sample);
    }
}

#[test]
fn trimmed_of_given_texts() {
    assert_eq!(trimmed("  a b  "), "a b");
    assert_eq!(trimmed("\n\t x \r\n"), "x");
    assert_eq!(trimmed("   "), "");
    assert_eq!(trimmed(""), "");
    assert_eq!(trimmed("\u{2003}x\u{2028}"), "x");
    assert_eq!(trimmed("\u{200b}x"), "\u{200b}x");
}

#[test]
fn replaced_gives_the_replace_of_std() {
    let cases = [
        ("Hello {name}!", "{name}", "World"),
        ("{a}{a}{a}", "{a}", "b"),
        ("aaaa", "aa", "b"),
        ("aaa", "aa", "b"),
        ("abcabc", "bc", ""),
        ("nothing here", "{x}", "y"),
        ("", "{x}", "y"),
        ("{x}", "{x}", "{x}{x}"),
        ("ab", "abc", "z"),
        ("caf\u{e9} {x} caf\u{e9}", "{x}", "\u{1F41B}"),
        ("x{a", "{a}", "b"),
    ];
    for (text, pattern, with) in cases {
        assert_eq!(
            replaced(text, pattern, with),
            text.replace(pattern, with),
            "{:?} with {:?} for {:?}",
            text,
            with,
            pattern
        );
    }
}

#[test]
fn replaced_leaves_the_text_as_it_is_for_an_empty_pattern() {
    assert_eq!(replaced("abc", "", "x"), "abc");
    assert_eq!(replaced("", "", "x"), "");
}

#[test]
fn contains_gives_the_contains_of_std() {
    let texts = ["", "xterm", "xterm-256color", "screen.xterm", "rxvt", "tmu", "ttmux", "a"];
    let patterns = ["", "xterm", "screen", "tmux", "a", "256", "xterm-256color-more"];
    for text in texts {
        for pattern in patterns {
            assert_eq!(
                contains(text, pattern),
                text.contains(pattern),
                "{:?} in {:?}",
                pattern,
                text
            );
        }
    }
}

#[test]
fn joined_gives_the_join_of_std() {
    let lists: [Vec<String>; 4] = [
        vec![],
        vec!["bug".to_string()],
        vec!["bug".to_string(), "crash".to_string()],
        vec!["".to_string(), "a".to_string(), "".to_string()],
    ];
    for list in lists {
        assert_eq!(joined(&list, ","), list.join(","));
        assert_eq!(joined(&list, ""), list.join(""));
        assert_eq!(joined(&list, "\n"), list.join("\n"));
    }
}

#[test]
fn same_text_compares_the_characters() {
    assert!(same_text("", ""));
    assert!(same_text("WezTerm", "WezTerm"));
    assert!(!same_text("WezTerm", "wezterm"));
    assert!(!same_text("WezTerm", "WezTer"));
    assert!(!same_text("a", ""));
}

#[test]
fn contains_text_looks_for_the_text_in_the_list() {
    let list = vec!["a".to_string(), "bc".to_string()];
    assert!(contains_text(&list, "a"));
    assert!(contains_text(&list, "bc"));
    assert!(!contains_text(&list, "b"));
    assert!(!contains_text(&list, ""));
    assert!(!contains_text(&Vec::new(), "a"));
}

#[test]
fn chars_of_and_string_of_go_back_and_forth() {
    let chars = chars_of("h\u{e9}llo");
    assert_eq!(chars, vec!['h', '\u{e9}', 'l', 'l', 'o']);
    assert_eq!(string_of(&chars, 0, 5), "h\u{e9}llo");
    assert_eq!(string_of(&chars, 1, 3), "\u{e9}l");
    assert_eq!(string_of(&chars, 2, 2), "");
}

#[test]
fn push_decimal_appends_the_numeral() {
    for n in [0u32, 7, 9, 10, 42, 99, 100, 1234, 4294967295] {
        let mut text = String::from("line ");
        push_decimal(&mut text, n);
        assert_eq!(text, format!("line {}", n));
    }
}

#[test]
fn followed_and_clone_list_keep_the_texts() {
    assert_eq!(followed("ab", "cd"), "abcd");
    assert_eq!(followed("", ""), "");
    let list = vec!["x".to_string(), "".to_string(), "yz".to_string()];
    assert_eq!(clone_list(&list), list);
}
