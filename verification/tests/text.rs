use exploit_prover::text::{
    chars_of, contains, decimal_text, ends_with, first_char, has_char, is_one_of, join2, join3,
    join_from, last_segment, line_at, lines, same_text, split, split_once, starts_with, trim,
    trim_by, trim_start_by, words, CharClass,
};

fn strings(list: &[&str]) -> Vec<String> {
    list.iter().map(|s| s.to_string()).collect()
}

#[test]
fn contains_finds_a_needle_anywhere() {
    assert!(contains("cursor.execute", "cursor"));
    assert!(contains("cursor.execute", "execute"));
    assert!(contains("cursor.execute", "r.e"));
    assert!(contains("abc", ""));
    assert!(contains("", ""));
    assert!(!contains("abc", "abcd"));
    assert!(!contains("abc", "ca"));
    assert!(!contains("", "a"));
    assert!(contains("héllo wörld", "wör"));
}

#[test]
fn starts_and_ends() {
    assert!(starts_with("requests.get", "requests"));
    assert!(!starts_with("requests.get", "get"));
    assert!(starts_with("a", ""));
    assert!(!starts_with("a", "ab"));
    assert!(ends_with("my.requests.get", "requests.get"));
    assert!(!ends_with("requests.gets", "requests.get"));
    assert!(ends_with("a", ""));
    assert!(!ends_with("et", "get"));
}

#[test]
fn last_segment_follows_the_last_dot() {
    assert_eq!(last_segment("db.cursor.execute", '.'), "execute");
    assert_eq!(last_segment("eval", '.'), "eval");
    assert_eq!(last_segment("a.b.", '.'), "");
    assert_eq!(last_segment("", '.'), "");
    assert_eq!(last_segment(".x", '.'), "x");
}

#[test]
fn trim_strips_white_space_at_both_ends() {
    assert_eq!(trim("  a b \t\r\n"), "a b");
    assert_eq!(trim("\u{a0}x\u{2003}"), "x");
    assert_eq!(trim(" \n "), "");
    assert_eq!(trim(""), "");
    assert_eq!(trim("x"), "x");
}

#[test]
fn trim_by_class() {
    assert_eq!(trim_by("\"'abc'\"", CharClass::Quote), "abc");
    assert_eq!(trim_by("f\"fluff\"f", CharClass::Quote), "f\"fluff\"f");
    assert_eq!(trim_by("\"fluff\"", CharClass::Quote), "fluff");
    assert_eq!(trim_by("''", CharClass::Quote), "");
    assert_eq!(trim_start_by("fff\"x\"", CharClass::LetterF), "\"x\"");
    assert_eq!(trim_start_by("xf", CharClass::LetterF), "xf");
}

#[test]
fn split_gives_one_piece_more_than_separators() {
    assert_eq!(split("a{b{c", '{'), strings(&["a", "b", "c"]));
    assert_eq!(split("{a{", '{'), strings(&["", "a", ""]));
    assert_eq!(split("abc", '{'), strings(&["abc"]));
    assert_eq!(split("", '{'), strings(&[""]));
}

#[test]
fn split_once_cuts_at_the_first_separator() {
    assert_eq!(split_once("a = b = c", '='), Some(("a ", " b = c")));
    assert_eq!(split_once("=x", '='), Some(("", "x")));
    assert_eq!(split_once("x=", '='), Some(("x", "")));
    assert_eq!(split_once("abc", '='), None);
    assert_eq!(split_once("", '='), None);
}

#[test]
fn words_are_runs_of_letters_digits_and_underscores() {
    assert_eq!(words("cursor.execute(user_id, x1)"), strings(&["cursor", "execute", "user_id", "x1"]));
    assert_eq!(words("  "), Vec::<String>::new());
    assert_eq!(words(""), Vec::<String>::new());
    assert_eq!(words("a"), strings(&["a"]));
    assert_eq!(words("(é_1)"), strings(&["é_1"]));
}

#[test]
fn lines_are_cut_at_line_feeds() {
    assert_eq!(lines("a\nb\r\nc"), strings(&["a", "b", "c"]));
    assert_eq!(lines("a\n"), strings(&["a"]));
    assert_eq!(lines("a\n\n"), strings(&["a", ""]));
    assert_eq!(lines(""), Vec::<String>::new());
    assert_eq!(lines("a\r"), strings(&["a\r"]));
    assert_eq!(lines("\n"), strings(&[""]));
}

#[test]
fn line_at_gives_the_trimmed_line() {
    let source = "first\n    second  \r\n\nfourth";
    assert_eq!(line_at(source, 0), "first");
    assert_eq!(line_at(source, 1), "second");
    assert_eq!(line_at(source, 2), "");
    assert_eq!(line_at(source, 3), "fourth");
    assert_eq!(line_at(source, 4), "");
    assert_eq!(line_at("", 0), "");
    assert_eq!(line_at("x\n", 1), "");
}

#[test]
fn decimal_text_of_numbers() {
    assert_eq!(decimal_text(0), "0");
    assert_eq!(decimal_text(7), "7");
    assert_eq!(decimal_text(10), "10");
    assert_eq!(decimal_text(1234567890), "1234567890");
    assert_eq!(decimal_text(usize::MAX), usize::MAX.to_string());
}

#[test]
fn joins_and_small_helpers() {
    assert_eq!(join2("ab", "cd"), "abcd");
    assert_eq!(join3("a", "", "c"), "ac");
    assert_eq!(join_from(&strings(&["a", "b", "c"]), 1, ", "), "b, c");
    assert_eq!(join_from(&strings(&["a", "b", "c"]), 3, ", "), "");
    assert_eq!(join_from(&strings(&["a"]), 0, ", "), "a");
    assert_eq!(chars_of("héé"), vec!['h', 'é', 'é']);
    assert!(same_text("abc", "abc"));
    assert!(!same_text("abc", "abd"));
    assert!(is_one_of("b", &strings(&["a", "b"])));
    assert!(!is_one_of("c", &strings(&["a", "b"])));
    assert_eq!(first_char("fx"), Some('f'));
    assert_eq!(first_char(""), None);
    assert!(has_char("a'b", '\''));
    assert!(!has_char("ab", '\''));
}
