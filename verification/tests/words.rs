use wordcount::text::{checked_count_words, count_words};

fn is_listed_white_space(c: char) -> bool {
    let n = c as u32;
    (0x09..=0x0D).contains(&n)
        || n == 0x20
        || n == 0x85
        || n == 0xA0
        || n == 0x1680
        || (0x2000..=0x200A).contains(&n)
        || n == 0x2028
        || n == 0x2029
        || n == 0x202F
        || n == 0x205F
        || n == 0x3000
}

#[test]
fn empty_line_has_one_word() {
    assert_eq!(count_words(&String::new()), 1);
}

#[test]
fn three_words_separated_by_single_spaces() {
    assert_eq!(count_words(&"a b c".to_string()), 3);
}

#[test]
fn blank_line_counts_its_spaces_plus_one() {
    assert_eq!(count_words(&"   ".to_string()), 4);
}

#[test]
fn line_without_white_space_has_one_word() {
    assert_eq!(count_words(&"hello".to_string()), 1);
}

#[test]
fn runs_of_white_space_count_each_character() {
    assert_eq!(count_words(&"a  b".to_string()), 3);
    assert_eq!(count_words(&"a\t \tb".to_string()), 4);
}

#[test]
fn embedded_newline_is_white_space() {
    assert_eq!(count_words(&"a\nb".to_string()), 2);
}

#[test]
fn white_space_beyond_ascii_is_counted() {
    assert_eq!(count_words(&"a\u{00A0}b\u{3000}c".to_string()), 3);
    assert_eq!(count_words(&"a\u{2003}b".to_string()), 2);
}

#[test]
fn characters_near_white_space_are_not_counted() {
    assert_eq!(count_words(&"a\u{200B}b".to_string()), 1);
    assert_eq!(count_words(&"a\u{180E}b".to_string()), 1);
    assert_eq!(count_words(&"a\u{001F}b".to_string()), 1);
}

#[test]
fn word_count_is_never_below_one() {
    for line in ["", "x", " ", "one two", "\t\t", "tail "] {
        assert!(count_words(&line.to_string()) >= 1);
    }
}

#[test]
fn every_character_is_classed_as_listed() {
    let mut code: u32 = 0;
    while code <= 0x10FFFF {
        if let Some(c) = char::from_u32(code) {
            let expected = if is_listed_white_space(c) { 2 } else { 1 };
            assert_eq!(count_words(&c.to_string()), expected, "code point {:#x}", code);
        }
        code += 1;
    }
}

#[test]
fn checked_count_agrees_with_count() {
    for line in ["", "a b c", "   ", "hello world", "a\u{00A0}b"] {
        let line = line.to_string();
        assert_eq!(checked_count_words(&line), Some(count_words(&line)));
    }
}
