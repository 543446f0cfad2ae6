use zc::text::{
    clean_exec, contains_exec, dedup_exec, ends_with, find_char, find_str_exec, join_exec, lines_exec,
    parse_i32_exec, replace_exec, second_piece_exec, split_char_exec, split_once_exec, starts_with, str_eq,
    trim_end_matches_exec, trim_exec, words_exec,
};

fn strings(v: &[&str]) -> Vec<String> {
    v.iter().map(|s| s.to_string()).collect()
}

#[test]
fn split_keeps_empty_pieces() {
    assert_eq!(split_char_exec("a::b:", ':'), strings(&["a", "", "b", ""]));
    assert_eq!(split_char_exec("", ':'), strings(&[""]));
    assert_eq!(split_char_exec("abc", ':'), strings(&["abc"]));
}

#[test]
fn join_puts_separator_between() {
    assert_eq!(join_exec(&strings(&["a", "b", "c"]), ", "), "a, b, c");
    assert_eq!(join_exec(&strings(&[]), ":"), "");
    assert_eq!(join_exec(&strings(&["x"]), ":"), "x");
}

#[test]
fn split_then_join_gives_back_the_text() {
    let s = "one\ntwo\n\nthree";
    assert_eq!(join_exec(&split_char_exec(s, '\n'), "\n"), s);
}

#[test]
fn trim_drops_unicode_whitespace() {
    assert_eq!(trim_exec("  \t hello world \n"), "hello world");
    assert_eq!(trim_exec("\u{3000}x\u{A0}"), "x");
    assert_eq!(trim_exec("   "), "");
    assert_eq!(trim_exec(" a b "), " a b ".trim());
}

#[test]
fn words_and_clean() {
    assert_eq!(words_exec("  8 (2  Used)\n"), strings(&["8", "(2", "Used)"]));
    assert_eq!(clean_exec("  8 (2  Used)\n"), "8 (2 Used)");
    assert_eq!(clean_exec(""), "");
    assert_eq!(clean_exec(" \t "), "");
}

#[test]
fn clean_twice_is_clean_once() {
    let samples = ["  a  b\tc ", "", "x", "\n\n y \u{2003} z"];
    for s in samples.iter() {
        let once = clean_exec(s);
        assert_eq!(clean_exec(&once), once);
    }
}

#[test]
fn prefix_and_suffix() {
    assert!(starts_with("10.13.13.7", "10.13.13"));
    assert!(!starts_with("10.13.1", "10.13.13"));
    assert!(starts_with("abc", ""));
    assert!(ends_with("abc:0", ":0"));
    assert!(!ends_with("0", ":0"));
    assert!(str_eq("ps", "ps"));
    assert!(!str_eq("ps", "p"));
}

#[test]
fn find_and_split_once() {
    assert_eq!(find_char("a=b=c", '='), Some(1));
    assert_eq!(find_char("abc", '='), None);
    assert_eq!(split_once_exec("KEY=a=b", '='), Some(("KEY".to_string(), "a=b".to_string())));
    assert_eq!(split_once_exec("no equals", '='), None);
}

#[test]
fn substring_search() {
    assert_eq!(find_str_exec("Spark Master at spark://x", "at "), Some(13));
    assert_eq!(find_str_exec("abc", "abcd"), None);
    assert_eq!(find_str_exec("abc", ""), Some(0));
    assert!(contains_exec("x export ZAKURO_CONTEXT=1", "export ZAKURO_CONTEXT"));
    assert!(!contains_exec("export ZAKURO_HOME=1", "export ZAKURO_CONTEXT"));
}

#[test]
fn second_piece_of_a_split() {
    assert_eq!(second_piece_exec("Spark Master at spark://10.0.0.1:7077", "at "), Some("spark://10.0.0.1:7077".to_string()));
    assert_eq!(second_piece_exec("a at b at c", "at "), Some("b ".to_string()));
    assert_eq!(second_piece_exec("no marker", "at "), None);
}

#[test]
fn replace_is_left_to_right() {
    assert_eq!(replace_exec("//usr//bin", "//", "/"), "/usr/bin");
    assert_eq!(replace_exec("///", "//", "/"), "//");
    assert_eq!(replace_exec("a\nb\n", "\n", "|"), "a|b|");
    assert_eq!(replace_exec("(2 Used)", "(", ""), "2 Used)");
}

#[test]
fn trim_end_matches_repeats() {
    assert_eq!(trim_end_matches_exec("10.13.13.2:0:0", ":0"), "10.13.13.2");
    assert_eq!(trim_end_matches_exec("10.13.13.2:01", ":0"), "10.13.13.2:01");
    assert_eq!(trim_end_matches_exec("abc", ""), "abc");
}

#[test]
fn lines_like_std() {
    let samples = ["a\nb", "a\r\nb\r\n", "", "\n", "a\n\nb\n", "x\r", "\r\n\r\n"];
    for s in samples.iter() {
        let expected: Vec<String> = s.lines().map(|l| l.to_string()).collect();
        assert_eq!(lines_exec(s), expected, "lines of {:?}", s);
    }
}

#[test]
fn parse_i32_like_std() {
    let samples = [
        "0", "42", "+7", "-7", "-0", "2147483647", "2147483648", "-2147483648", "-2147483649", "", "-", "+",
        "1a", " 1", "99999999999999999999", "007",
    ];
    for s in samples.iter() {
        assert_eq!(parse_i32_exec(s), s.parse::<i32>().ok(), "parse of {:?}", s);
    }
}

#[test]
fn dedup_keeps_first_occurrence() {
    assert_eq!(dedup_exec(&strings(&["b", "a", "b", "c", "a"])), strings(&["b", "a", "c"]));
    assert_eq!(dedup_exec(&strings(&[])), strings(&[]));
}
