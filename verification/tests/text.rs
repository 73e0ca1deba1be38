use icon_resolver::text::{
    blank, chars_of, find_char, parse_number, same_chars, spells, split_chars, string_of,
    trim_chars,
};

fn chars(s: &str) -> Vec<char> {
    s.chars().collect()
}

#[test]
fn chars_and_strings_convert_both_ways() {
    assert_eq!(chars_of("a/b é"), vec!['a', '/', 'b', ' ', 'é']);
    assert_eq!(string_of(&['h', 'i', '!']), "hi!");
    assert_eq!(string_of(&chars_of("hicolor")), "hicolor");
    assert_eq!(string_of(&[]), "");
}

#[test]
fn find_char_gives_first_index_or_length() {
    assert_eq!(find_char(&chars("a=b=c"), '='), 1);
    assert_eq!(find_char(&chars("abc"), '='), 3);
    assert_eq!(find_char(&chars(""), '='), 0);
    assert_eq!(find_char(&chars("=x"), '='), 0);
}

#[test]
fn split_keeps_empty_pieces() {
    let text = chars("a,,bc,");
    let parts = split_chars(&text, ',');
    let strings: Vec<String> = parts.iter().map(|p| string_of(p)).collect();
    assert_eq!(strings, vec!["a", "", "bc", ""]);
}

#[test]
fn split_of_text_without_separator_is_the_text() {
    let text = chars("hicolor");
    let parts = split_chars(&text, ',');
    assert_eq!(parts.len(), 1);
    assert_eq!(string_of(parts[0]), "hicolor");
    let empty = chars("");
    let parts = split_chars(&empty, ',');
    assert_eq!(parts.len(), 1);
    assert_eq!(parts[0].len(), 0);
}

#[test]
fn trim_removes_blanks_at_both_ends_only() {
    assert_eq!(string_of(trim_chars(&chars("  \ta b \r"))), "a b");
    assert_eq!(string_of(trim_chars(&chars("ab"))), "ab");
    assert_eq!(string_of(trim_chars(&chars(" \t "))), "");
    assert_eq!(string_of(trim_chars(&chars(""))), "");
}

#[test]
fn blank_characters_are_space_tab_and_carriage_return() {
    assert!(blank(' '));
    assert!(blank('\t'));
    assert!(blank('\r'));
    assert!(!blank('\n'));
    assert!(!blank('a'));
}

#[test]
fn numbers_are_decimal_and_fit_sixteen_bits() {
    assert_eq!(parse_number(&chars("0")), Some(0));
    assert_eq!(parse_number(&chars("48")), Some(48));
    assert_eq!(parse_number(&chars("0048")), Some(48));
    assert_eq!(parse_number(&chars("65535")), Some(65535));
    assert_eq!(parse_number(&chars("65536")), None);
    assert_eq!(parse_number(&chars("99999999999999999999")), None);
    assert_eq!(parse_number(&chars("")), None);
    assert_eq!(parse_number(&chars("-1")), None);
    assert_eq!(parse_number(&chars("+1")), None);
    assert_eq!(parse_number(&chars("4 8")), None);
    assert_eq!(parse_number(&chars("12px")), None);
}

#[test]
fn same_chars_compares_contents() {
    assert!(same_chars(&chars("abc"), &chars("abc")));
    assert!(!same_chars(&chars("abc"), &chars("abd")));
    assert!(!same_chars(&chars("abc"), &chars("ab")));
    assert!(same_chars(&chars(""), &chars("")));
    assert!(spells(&chars("Size"), "Size"));
    assert!(!spells(&chars("size"), "Size"));
}
