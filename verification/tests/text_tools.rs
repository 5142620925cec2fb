use jam_bot::text::{
    is_valid_game_name, join_with_spaces, list_strings, parse_u64, str_eq, str_to_chars,
    to_markdown_safe, tokenize, u64_to_dec,
};

#[test]
fn tokenize_splits_on_ascii_whitespace() {
    let toks = tokenize("  !help  me\tnow\nplease ");
    assert_eq!(toks, vec!["!help", "me", "now", "please"]);
    assert_eq!(tokenize(""), Vec::<String>::new());
    assert_eq!(tokenize("   \t\n"), Vec::<String>::new());
    assert_eq!(tokenize("one"), vec!["one"]);
    // Form feed counts as ASCII whitespace too.
    assert_eq!(tokenize("a\u{c}b"), vec!["a", "b"]);
}

#[test]
fn name_validation_rejects_backtick_and_pipe_only() {
    assert!(!is_valid_game_name("has`tick"));
    assert!(!is_valid_game_name("has|pipe"));
    assert!(!is_valid_game_name("`"));
    assert!(is_valid_game_name(""));
    assert!(is_valid_game_name("Pixel Quest"));
    // Other punctuation, markdown characters and non-ASCII are accepted.
    assert!(is_valid_game_name("a-b_c.d*e\"f#g=h<i>j{k}\\l \u{22c5} \u{1f3b2}"));
}

#[test]
fn markdown_escape_prefixes_each_run_once() {
    assert_eq!(to_markdown_safe("plain name"), "plain name");
    assert_eq!(to_markdown_safe("a-b"), "a\\-b");
    // One backslash for a whole run of escapable characters.
    assert_eq!(to_markdown_safe("a--b"), "a\\--b");
    assert_eq!(to_markdown_safe("*bold*"), "\\*bold\\*");
    assert_eq!(to_markdown_safe("dot.dash-"), "dot\\.dash\\-");
}

#[test]
fn markdown_escape_handles_backslashes_and_the_dot_operator() {
    assert_eq!(to_markdown_safe(""), "");
    // A backslash is itself escapable.
    assert_eq!(to_markdown_safe("a\\b"), "a\\\\b");
    assert_eq!(to_markdown_safe("x\u{22c5}y"), "x\\\u{22c5}y");
}

#[test]
fn markdown_escape_is_not_idempotent() {
    let once = to_markdown_safe("a.b");
    assert_eq!(once, "a\\.b");
    let twice = to_markdown_safe(once.as_str());
    // Re-escaping escapes the backslash run again: escaping must be
    // applied exactly once per raw name.
    assert_eq!(twice, "a\\\\.b");
    assert_ne!(twice, once);
}

#[test]
fn list_strings_uses_commas_and_a_final_and() {
    assert_eq!(list_strings(vec![]), "");
    assert_eq!(list_strings(vec!["category".to_string()]), "category");
    assert_eq!(
        list_strings(vec!["category".to_string(), "text channel".to_string()]),
        "category and text channel"
    );
    assert_eq!(
        list_strings(vec![
            "category".to_string(),
            "text channel".to_string(),
            "voice channel".to_string()
        ]),
        "category, text channel and voice channel"
    );
}

#[test]
fn join_with_spaces_restores_multiword_names() {
    assert_eq!(join_with_spaces(&vec!["Pixel".to_string(), "Quest".to_string()]), "Pixel Quest");
    assert_eq!(join_with_spaces(&vec![]), "");
}

#[test]
fn decimal_formatting_and_parsing() {
    assert_eq!(u64_to_dec(0), "0");
    assert_eq!(u64_to_dec(907), "907");
    assert_eq!(u64_to_dec(u64::MAX), "18446744073709551615");
    assert_eq!(parse_u64(&str_to_chars("907")), Some(907));
    assert_eq!(parse_u64(&str_to_chars("0")), Some(0));
    assert_eq!(parse_u64(&str_to_chars("18446744073709551615")), Some(u64::MAX));
    assert_eq!(parse_u64(&str_to_chars("18446744073709551616")), None);
    assert_eq!(parse_u64(&str_to_chars("12a")), None);
    assert_eq!(parse_u64(&str_to_chars("")), None);
}

#[test]
fn str_eq_compares_by_characters() {
    assert!(str_eq("abc", "abc"));
    assert!(!str_eq("abc", "abd"));
    assert!(!str_eq("abc", "ab"));
    assert!(str_eq("", ""));
}
