use wordle::{chars_of, contains_word, parse_word_list};

#[test]
fn parse_trims_each_line_in_order() {
    let words = parse_word_list("  crane \nhello\r\n\tabide\n");
    assert_eq!(words, vec!["crane".to_string(), "hello".to_string(), "abide".to_string()]);
}

#[test]
fn parse_empty_text() {
    assert!(parse_word_list("").is_empty());
}

#[test]
fn parse_keeps_blank_lines_as_empty_words() {
    let words = parse_word_list("a\n   \nb");
    assert_eq!(words, vec!["a".to_string(), String::new(), "b".to_string()]);
}

#[test]
fn membership() {
    let words = vec!["abide".to_string(), "crane".to_string(), "hello".to_string()];
    assert!(contains_word(&words, &"crane".to_string()));
    assert!(!contains_word(&words, &"cran".to_string()));
    assert!(!contains_word(&words, &"CRANE".to_string()));
    assert!(!contains_word(&Vec::new(), &"crane".to_string()));
}

#[test]
fn characters_in_order() {
    assert_eq!(chars_of("héllo"), vec!['h', 'é', 'l', 'l', 'o']);
    assert!(chars_of("").is_empty());
}
